//! A client of the Cascade engine: where it connects, which workspace it
//! registers, and the requests that it makes.

use vstd::prelude::*;
use vstd::utf8::encode_utf8;

use crate::cascade::poll::{CascadePoll, Poll};
use crate::grpc::{is_metadata_text, metadata_byte, metadata_text};
use crate::text;

verus! {

/// How the client presents itself.
#[derive(Debug, PartialEq, Eq)]
pub struct Metadata {
    pub ide_name: String,
    pub ide_version: String,
    pub extension_name: String,
    pub extension_version: String,
}

impl Clone for Metadata {
    fn clone(&self) -> (copy: Self)
        ensures
            copy == *self,
    {
        Metadata {
            ide_name: self.ide_name.clone(),
            ide_version: self.ide_version.clone(),
            extension_name: self.extension_name.clone(),
            extension_version: self.extension_version.clone(),
        }
    }
}

/// Asks the engine to track a workspace, by its bare path.
#[derive(Debug, PartialEq, Eq)]
pub struct AddTrackedWorkspaceRequest {
    pub workspace: String,
    pub do_not_watch_files: bool,
    pub is_passive_workspace: bool,
}

/// Asks the engine to work in directories, by their `file://` URIs.
#[derive(Debug, PartialEq, Eq)]
pub struct SetWorkingDirectoriesRequest {
    pub directory_uris: Vec<String>,
}

/// The two requests that register a workspace.
#[derive(Debug, PartialEq, Eq)]
pub struct WorkspaceRegistration {
    pub add_tracked_workspace: AddTrackedWorkspaceRequest,
    pub set_working_directories: SetWorkingDirectoriesRequest,
}

/// A message together with the metadata entry that authorizes it.
#[derive(Debug, PartialEq, Eq)]
pub struct AuthorizedRequest<T> {
    pub header: String,
    pub token: String,
    pub message: T,
}

/// The kinds of conversation that the client starts.
#[derive(Debug, Clone, Copy, PartialEq, Eq, Structural)]
pub enum CortexTrajectoryType {
    Cascade,
}

/// Asks the engine to start a conversation.
#[derive(Debug, PartialEq, Eq)]
pub struct StartCascadeRequest {
    pub metadata: Metadata,
    pub trajectory_type: CortexTrajectoryType,
}

/// How the engine is to plan its answer.
#[derive(Debug, Clone, Copy, PartialEq, Eq, Structural)]
pub enum PlannerTypeConfig {
    Conversational,
}

/// Which model is to answer, and how.
#[derive(Debug, Clone, Copy, PartialEq, Eq, Structural)]
pub struct CascadePlannerConfig {
    pub requested_model: i32,
    pub planner_type_config: PlannerTypeConfig,
}

/// Says something in a conversation.
#[derive(Debug, PartialEq, Eq)]
pub struct SendUserCascadeMessageRequest<I, M> {
    pub metadata: Metadata,
    pub cascade_id: String,
    /// The text items of the message.
    pub items: Vec<String>,
    pub images: Vec<I>,
    pub media: Vec<M>,
    pub planner_config: CascadePlannerConfig,
}

/// Asks how a conversation stands.
#[derive(Debug, PartialEq, Eq)]
pub struct GetCascadeTrajectoryRequest {
    pub cascade_id: String,
}

/// The address to connect to: `addr` itself where it names an HTTP scheme, and
/// by default TLS.
pub open spec fn endpoint_text(addr: Seq<char>) -> Seq<char> {
    if text::opens_with(addr, "http"@) {
        addr
    } else {
        "https://"@ + addr
    }
}

/// The bare path of a workspace that may be given as a `file://` URI.
pub open spec fn bare_path_text(dir: Seq<char>) -> Seq<char> {
    text::without_prefixes(dir, "file://"@)
}

/// The `file://` URI of a bare path.
pub open spec fn uri_text(bare: Seq<char>) -> Seq<char> {
    if text::opens_with(bare, "/"@) {
        "file://"@ + bare
    } else {
        "file:///"@ + bare
    }
}

/// `registration` registers the workspace `dir`.
pub open spec fn registers(registration: WorkspaceRegistration, dir: Seq<char>) -> bool {
    let add = registration.add_tracked_workspace;
    let uris = registration.set_working_directories.directory_uris@;
    &&& add.workspace@ == bare_path_text(dir)
    &&& add.do_not_watch_files
    &&& !add.is_passive_workspace
    &&& uris.len() == 1
    &&& uris[0]@ == uri_text(bare_path_text(dir))
}

/// A workspace is registered where one is given and not empty.
pub open spec fn workspace_registered(
    registration: Option<WorkspaceRegistration>,
    dir: Option<String>,
) -> bool {
    match dir {
        Some(d) if d@.len() > 0 => registration matches Some(r) && registers(r, d@),
        _ => registration is None,
    }
}

/// The address to connect to.
fn endpoint(addr: String) -> (url: String)
    ensures
        url@ == endpoint_text(addr@),
{
    if text::begins_with(addr.as_str(), "http") {
        addr
    } else {
        let mut url = "https://".to_owned();
        url.append(addr.as_str());
        url
    }
}

/// The requests that register the workspace `dir`.
fn register(dir: &str) -> (registration: WorkspaceRegistration)
    ensures
        registers(registration, dir@),
{
    proof {
        reveal_strlit("file://");
    }
    let bare = text::trim_prefixes(dir, "file://");
    let mut uri = if text::begins_with(bare, "/") {
        "file://".to_owned()
    } else {
        "file:///".to_owned()
    };
    uri.append(bare);
    let mut directory_uris: Vec<String> = Vec::new();
    directory_uris.push(uri);
    WorkspaceRegistration {
        add_tracked_workspace: AddTrackedWorkspaceRequest {
            workspace: bare.to_owned(),
            do_not_watch_files: true,
            is_passive_workspace: false,
        },
        set_working_directories: SetWorkingDirectoriesRequest { directory_uris },
    }
}

/// What a client knows of itself.
#[derive(Debug, PartialEq, Eq)]
pub struct CascadeClient {
    /// The address to connect to.
    pub endpoint: String,
    /// The certificate that the engine is trusted by, as PEM.
    pub tls_cert: Vec<u8>,
    /// How to register the workspace, where there is one.
    pub registration: Option<WorkspaceRegistration>,
    pub metadata: Metadata,
    pub auth_token: String,
}

impl CascadeClient {
    /// A client of the engine at `grpc_addr` that works in `workspace_dir`.
    pub fn new(
        grpc_addr: String,
        metadata: Metadata,
        csrf_token: String,
        tls_cert: Vec<u8>,
        workspace_dir: Option<String>,
    ) -> (client: Self)
        ensures
            client.endpoint@ == endpoint_text(grpc_addr@),
            client.tls_cert == tls_cert,
            workspace_registered(client.registration, workspace_dir),
            client.metadata == metadata,
            client.auth_token == csrf_token,
    {
        let registration = match &workspace_dir {
            Some(dir) => if dir.as_str().is_empty() {
                None
            } else {
                Some(register(dir.as_str()))
            },
            None => None,
        };
        CascadeClient {
            endpoint: endpoint(grpc_addr),
            tls_cert,
            registration,
            metadata,
            auth_token: csrf_token,
        }
    }

    /// Whether the token can be sent with a request.
    pub fn can_authorize(&self) -> (ok: bool)
        ensures
            ok == metadata_text(self.auth_token@),
    {
        is_metadata_text(self.auth_token.as_str())
    }

    /// Puts the token to a message.
    pub fn auth_request<T>(&self, message: T) -> (request: AuthorizedRequest<T>)
        requires
            metadata_text(self.auth_token@),
        ensures
            request.header@ == "x-codeium-csrf-token"@,
            request.token@ == self.auth_token@,
            request.message == message,
    {
        AuthorizedRequest {
            header: "x-codeium-csrf-token".to_owned(),
            token: self.auth_token.clone(),
            message,
        }
    }

    /// The request that starts a conversation.
    pub fn start_request(&self) -> (request: AuthorizedRequest<StartCascadeRequest>)
        requires
            metadata_text(self.auth_token@),
        ensures
            request.header@ == "x-codeium-csrf-token"@,
            request.token@ == self.auth_token@,
            request.message.metadata == self.metadata,
            request.message.trajectory_type == CortexTrajectoryType::Cascade,
    {
        self.auth_request(
            StartCascadeRequest {
                metadata: self.metadata.clone(),
                trajectory_type: CortexTrajectoryType::Cascade,
            },
        )
    }

    /// The request that asks how the conversation `cascade_id` stands.
    pub fn trajectory_request(&self, cascade_id: String) -> (request: AuthorizedRequest<
        GetCascadeTrajectoryRequest,
    >)
        requires
            metadata_text(self.auth_token@),
        ensures
            request.header@ == "x-codeium-csrf-token"@,
            request.token@ == self.auth_token@,
            request.message.cascade_id == cascade_id,
    {
        self.auth_request(GetCascadeTrajectoryRequest { cascade_id })
    }

    /// Says `user_text` in the conversation `cascade_id`: the request that does
    /// so, and the polling of the answer, on a clock that starts with it.
    pub fn chat_stream<I, M>(
        &self,
        cascade_id: String,
        user_text: String,
        model_id: i32,
        images: Vec<I>,
        media: Vec<M>,
        force_reasoning_before_text: bool,
    ) -> (chat: (AuthorizedRequest<SendUserCascadeMessageRequest<I, M>>, CascadePoll))
        requires
            metadata_text(self.auth_token@),
        ensures
            chat.0.header@ == "x-codeium-csrf-token"@,
            chat.0.token@ == self.auth_token@,
            chat.0.message.metadata == self.metadata,
            chat.0.message.cascade_id == cascade_id,
            chat.0.message.items@ == seq![user_text],
            chat.0.message.images == images,
            chat.0.message.media == media,
            chat.0.message.planner_config == (CascadePlannerConfig {
                requested_model: model_id,
                planner_type_config: PlannerTypeConfig::Conversational,
            }),
            chat.1@ == Poll::initial(force_reasoning_before_text, 0),
    {
        let mut items: Vec<String> = Vec::new();
        items.push(user_text);
        let message = SendUserCascadeMessageRequest {
            metadata: self.metadata.clone(),
            cascade_id,
            items,
            images,
            media,
            planner_config: CascadePlannerConfig {
                requested_model: model_id,
                planner_type_config: PlannerTypeConfig::Conversational,
            },
        };
        (self.auth_request(message), CascadePoll::new(force_reasoning_before_text, 0))
    }
}

/// A bare path has no file scheme in front, however often `dir` had it there,
/// and is its own bare path.
pub proof fn law_bare_path_has_no_scheme(dir: Seq<char>)
    ensures
        !text::opens_with(bare_path_text(dir), "file://"@),
        bare_path_text(bare_path_text(dir)) == bare_path_text(dir),
        bare_path_text("file://"@ + dir) == bare_path_text(dir),
{
    reveal_strlit("file://");
    let scheme = "file://"@;
    text::lemma_without_prefixes(dir, scheme);
    let whole = scheme + dir;
    assert(whole.subrange(0, scheme.len() as int) == scheme);
    assert(whole.skip(scheme.len() as int) == dir);
}

/// The URI that is registered for an absolute path leads back to that path:
/// given as a path or as its URI, a workspace is registered alike.
pub proof fn law_uri_leads_back(dir: Seq<char>)
    requires
        text::opens_with(bare_path_text(dir), "/"@),
    ensures
        bare_path_text(uri_text(bare_path_text(dir))) == bare_path_text(dir),
        uri_text(bare_path_text(uri_text(bare_path_text(dir)))) == uri_text(bare_path_text(dir)),
{
    law_bare_path_has_no_scheme(dir);
    law_bare_path_has_no_scheme(bare_path_text(dir));
}

/// Every URI that is registered names the file scheme and an absolute path.
pub proof fn law_uri_is_absolute(bare: Seq<char>)
    ensures
        text::opens_with(uri_text(bare), "file:///"@),
{
    reveal_strlit("file://");
    reveal_strlit("file:///");
    reveal_strlit("/");
    let uri = uri_text(bare);
    if text::opens_with(bare, "/"@) {
        assert(bare[0] == bare.subrange(0, 1)[0]);
        assert(uri.subrange(0, 8) == "file:///"@);
    } else {
        assert(uri.subrange(0, 8) == "file:///"@);
    }
}

/// `registration` tracks the path that `dir` names without its scheme, neither
/// watched nor passive, and works in it alone, by its URI with three slashes.
pub open spec fn names_workspace(registration: WorkspaceRegistration, dir: Seq<char>) -> bool {
    let path = registration.add_tracked_workspace.workspace@;
    let uris = registration.set_working_directories.directory_uris@;
    &&& exists|times: nat| dir == #[trigger] text::repeated("file://"@, times) + path
    &&& !"file://"@.is_prefix_of(path)
    &&& registration.add_tracked_workspace.do_not_watch_files
    &&& !registration.add_tracked_workspace.is_passive_workspace
    &&& uris.len() == 1
    &&& uris[0]@ == (if path.len() > 0 && path[0] == '/' {
        "file://"@ + path
    } else {
        "file:///"@ + path
    })
}

/// `client` talks to `addr`, over TLS where it names no scheme; and it registers
/// a workspace where it has a directory with a name, and only there.
pub open spec fn is_client_of(client: CascadeClient, addr: Seq<char>, dir: Option<Seq<char>>) -> bool {
    &&& client.endpoint@ == (if "http"@.is_prefix_of(addr) {
        addr
    } else {
        "https://"@ + addr
    })
    &&& client.registration is Some <==> (dir matches Some(d) && d.len() > 0)
    &&& client.registration matches Some(r) ==> names_workspace(r, dir->0)
}

/// The characters of a directory that may be missing.
pub open spec fn dir_text(dir: Option<String>) -> Option<Seq<char>> {
    match dir {
        Some(d) => Some(d@),
        None => None,
    }
}

/// What is registered for a workspace names it.
pub proof fn lemma_client_of(client: CascadeClient, addr: Seq<char>, dir: Option<String>)
    requires
        client.endpoint@ == endpoint_text(addr),
        workspace_registered(client.registration, dir),
    ensures
        is_client_of(client, addr, dir_text(dir)),
{
    text::lemma_prefix(addr, "http"@);
    if let Some(r) = client.registration {
        let d = dir->0@;
        let path = r.add_tracked_workspace.workspace@;
        reveal_strlit("file://");
        reveal_strlit("/");
        text::lemma_taken_off(d, "file://"@);
        text::lemma_without_prefixes(d, "file://"@);
        text::lemma_prefix(path, "file://"@);
        text::lemma_prefix(path, "/"@);
        assert("/"@.is_prefix_of(path) <==> path.len() > 0 && path[0] == '/') by {
            if path.len() > 0 {
                assert(path.subrange(0, 1)[0] == path[0]);
                if path[0] == '/' {
                    assert(path.subrange(0, 1) == "/"@);
                }
            }
        }
    }
}

/// A client keeps what it is given, connects to its address and registers its
/// workspace.
pub proof fn law_new_client(
    grpc_addr: String,
    metadata: Metadata,
    csrf_token: String,
    tls_cert: Vec<u8>,
    workspace_dir: Option<String>,
    client: CascadeClient,
)
    requires
        call_ensures(
            CascadeClient::new,
            (grpc_addr, metadata, csrf_token, tls_cert, workspace_dir),
            client,
        ),
    ensures
        is_client_of(client, grpc_addr@, dir_text(workspace_dir)),
        client.metadata == metadata,
        client.auth_token@ == csrf_token@,
        client.tls_cert@ == tls_cert@,
{
    lemma_client_of(client, grpc_addr@, workspace_dir);
}

/// Every request carries the client's token under the same name, and its message
/// as it is.
pub proof fn law_requests_are_authorized<T>(
    client: &CascadeClient,
    message: T,
    request: AuthorizedRequest<T>,
)
    requires
        call_ensures(CascadeClient::auth_request::<T>, (client, message), request),
    ensures
        request.header@ == "x-codeium-csrf-token"@,
        request.token@ == client.auth_token@,
        request.message == message,
{
}

/// A conversation is started as a Cascade, by the client as it presents itself.
pub proof fn law_start_request(
    client: &CascadeClient,
    request: AuthorizedRequest<StartCascadeRequest>,
)
    requires
        call_ensures(CascadeClient::start_request, (client, ), request),
    ensures
        request.header@ == "x-codeium-csrf-token"@,
        request.token@ == client.auth_token@,
        request.message.metadata == client.metadata,
        request.message.trajectory_type == CortexTrajectoryType::Cascade,
{
}

/// A poll asks for its own conversation.
pub proof fn law_trajectory_request(
    client: &CascadeClient,
    cascade_id: String,
    request: AuthorizedRequest<GetCascadeTrajectoryRequest>,
)
    requires
        call_ensures(CascadeClient::trajectory_request, (client, cascade_id), request),
    ensures
        request.header@ == "x-codeium-csrf-token"@,
        request.token@ == client.auth_token@,
        request.message.cascade_id@ == cascade_id@,
{
}

/// What the user says goes out whole, as one item, in the conversation and to the
/// model that it is meant for, with all images and media; and the polling of the
/// answer starts with nothing known.
pub proof fn law_message_goes_out_whole<I, M>(
    client: &CascadeClient,
    cascade_id: String,
    user_text: String,
    model_id: i32,
    images: Vec<I>,
    media: Vec<M>,
    force: bool,
    chat: (AuthorizedRequest<SendUserCascadeMessageRequest<I, M>>, CascadePoll),
)
    requires
        call_ensures(
            CascadeClient::chat_stream::<I, M>,
            (client, cascade_id, user_text, model_id, images, media, force),
            chat,
        ),
    ensures
        chat.0.header@ == "x-codeium-csrf-token"@,
        chat.0.token@ == client.auth_token@,
        chat.0.message.metadata == client.metadata,
        chat.0.message.cascade_id@ == cascade_id@,
        chat.0.message.items@.len() == 1,
        chat.0.message.items@[0]@ == user_text@,
        chat.0.message.images@ == images@,
        chat.0.message.media@ == media@,
        chat.0.message.planner_config.requested_model == model_id,
        chat.0.message.planner_config.planner_type_config == PlannerTypeConfig::Conversational,
        chat.1@.cursors.len() == 0,
        chat.1@.pending.len() == 0,
        chat.1@.errors == 0,
        chat.1@.idle == 0,
        chat.1@.last_progress == 0,
        chat.1@.force_reasoning_before_text == force,
{
}

/// A client whose token can be sent can make all its requests.
pub proof fn law_token_is_enough<T, I, M>(
    client: &CascadeClient,
    message: T,
    cascade_id: String,
    user_text: String,
    model_id: i32,
    images: Vec<I>,
    media: Vec<M>,
    force: bool,
)
    requires
        call_ensures(CascadeClient::can_authorize, (client, ), true),
    ensures
        call_requires(CascadeClient::auth_request::<T>, (client, message)),
        call_requires(CascadeClient::start_request, (client, )),
        call_requires(CascadeClient::trajectory_request, (client, cascade_id)),
        call_requires(
            CascadeClient::chat_stream::<I, M>,
            (client, cascade_id, user_text, model_id, images, media, force),
        ),
{
}

/// A token can be sent where each of its bytes may stand in a header.
pub proof fn law_tokens_that_can_be_sent(client: &CascadeClient, ok: bool)
    requires
        call_ensures(CascadeClient::can_authorize, (client, ), ok),
    ensures
        ok <==> forall|i: int|
            0 <= i < encode_utf8(client.auth_token@).len() ==> {
                let b = #[trigger] encode_utf8(client.auth_token@)[i];
                b == 9 || 32 <= b < 127 || b > 127
            },
{
    let bytes = encode_utf8(client.auth_token@);
    assert forall|i: int| 0 <= i < bytes.len() implies (metadata_byte(#[trigger] bytes[i]) <==> {
        bytes[i] == 9 || 32 <= bytes[i] < 127 || bytes[i] > 127
    }) by {}
}

} // verus!
