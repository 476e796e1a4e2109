//! Opening a stream: what a request to a model is turned into before the
//! conversation starts.

use vstd::prelude::*;

use crate::cascade::client::{
    dir_text, endpoint_text, is_client_of, lemma_client_of, workspace_registered, CascadeClient,
    Metadata,
};
use crate::grpc::{Status, PERMISSION_DENIED};
use crate::mappers::delta::CascadeDelta;
use crate::text;

verus! {

/// How the IDE is presented to the engine.
#[derive(Debug, PartialEq, Eq)]
pub struct RuntimeConfig {
    pub ide_name: String,
    pub extension_name: String,
    pub version: String,
}

/// How to reach a language server, and for whom.
#[derive(Debug, PartialEq, Eq)]
pub struct LsConnectionInfo {
    pub grpc_addr: String,
    pub csrf_token: Option<String>,
    /// The certificate that the server is trusted by, as PEM.
    pub tls_cert: Vec<u8>,
    pub workspace_dir: Option<String>,
    pub resolved_model_id: i32,
    pub account_email: Option<String>,
}

/// A stream that is ready to be opened.
#[derive(Debug, PartialEq, Eq)]
pub struct StreamPlan {
    pub client: CascadeClient,
    /// What the model is asked.
    pub prompt: String,
    pub model_name: String,
    pub model_id: i32,
    /// Whether the model has no reasoning channel of its own.
    pub is_lite: bool,
    pub force_reasoning_before_text: bool,
}

/// The instruction that is put before a prompt. A lite model is made to write
/// its reasoning between tags; any other is only told the language.
pub open spec fn instruction_text(is_lite: bool) -> Seq<char> {
    if is_lite {
        "[System Instruction]\nYou must first perform a step-by-step reasoning process within <thought>...</thought> tags before providing your final answer. Please reason in Chinese. (请务必先并在 <thought> 标签内使用中文进行过程推理，然后再给出最终答案)\n\n"@
    } else {
        "[System Instruction]\nPlease reason in Chinese. (请务必使用中文进行思考)\n\n"@
    }
}

/// `metadata` presents the IDE of `config`, which has one version for both of
/// its parts.
pub open spec fn presents(metadata: Metadata, config: RuntimeConfig) -> bool {
    &&& metadata.ide_name@ == config.ide_name@
    &&& metadata.ide_version@ == config.version@
    &&& metadata.extension_name@ == config.extension_name@
    &&& metadata.extension_version@ == config.version@
}

/// The token to send; without one, none.
pub open spec fn token_text(token: Option<String>) -> Seq<char> {
    match token {
        Some(t) => t@,
        None => Seq::empty(),
    }
}

/// The workspace to register: the one of the connection, else the one that the
/// request names.
pub open spec fn workspace_of(conn: LsConnectionInfo, extracted: Option<String>) -> Option<String> {
    match conn.workspace_dir {
        Some(dir) => Some(dir),
        None => extracted,
    }
}

impl StreamPlan {
    /// This plan opens a stream for `prompt_text` to the model whose name is
    /// `lower` in lower case.
    pub open spec fn opens(
        self,
        lower: Seq<char>,
        config: RuntimeConfig,
        conn: LsConnectionInfo,
        prompt_text: Seq<char>,
        extracted: Option<String>,
    ) -> bool {
        &&& self.is_lite == text::contains(lower, "lite"@)
        &&& self.force_reasoning_before_text == text::contains(lower, "thinking"@)
        &&& self.prompt@ == instruction_text(self.is_lite) + prompt_text
        &&& self.model_id == conn.resolved_model_id
        &&& presents(self.client.metadata, config)
        &&& self.client.endpoint@ == endpoint_text(conn.grpc_addr@)
        &&& self.client.auth_token@ == token_text(conn.csrf_token)
        &&& self.client.tls_cert@ == conn.tls_cert@
        &&& workspace_registered(self.client.registration, workspace_of(conn, extracted))
    }
}

/// Plans the stream of a request to the model `model_name`, whose name in lower
/// case is `lower`.
pub fn plan_stream(
    lower: &str,
    config: &RuntimeConfig,
    conn: &LsConnectionInfo,
    model_name: String,
    prompt_text: &str,
    extracted_workspace: Option<String>,
) -> (plan: StreamPlan)
    ensures
        plan.model_name == model_name,
        plan.opens(lower@, *config, *conn, prompt_text@, extracted_workspace),
        plan.prompt@ == (if text::contains(lower@, "lite"@) {
            "[System Instruction]\nYou must first perform a step-by-step reasoning process within <thought>...</thought> tags before providing your final answer. Please reason in Chinese. (请务必先并在 <thought> 标签内使用中文进行过程推理，然后再给出最终答案)\n\n"@
        } else {
            "[System Instruction]\nPlease reason in Chinese. (请务必使用中文进行思考)\n\n"@
        }) + prompt_text@,
{
    let metadata = Metadata {
        ide_name: config.ide_name.clone(),
        ide_version: config.version.clone(),
        extension_name: config.extension_name.clone(),
        extension_version: config.version.clone(),
    };
    let is_lite = text::has(lower, "lite");
    let mut prompt = if is_lite {
        "[System Instruction]\nYou must first perform a step-by-step reasoning process within <thought>...</thought> tags before providing your final answer. Please reason in Chinese. (请务必先并在 <thought> 标签内使用中文进行过程推理，然后再给出最终答案)\n\n".to_owned()
    } else {
        "[System Instruction]\nPlease reason in Chinese. (请务必使用中文进行思考)\n\n".to_owned()
    };
    prompt.append(prompt_text);
    let workspace = match &conn.workspace_dir {
        Some(dir) => Some(dir.clone()),
        None => extracted_workspace,
    };
    let token = match &conn.csrf_token {
        Some(t) => t.clone(),
        None => String::new(),
    };
    let tls_cert = conn.tls_cert.clone();
    StreamPlan {
        client: CascadeClient::new(conn.grpc_addr.clone(), metadata, token, tls_cert, workspace),
        prompt,
        model_name,
        model_id: conn.resolved_model_id,
        is_lite,
        force_reasoning_before_text: text::has(lower, "thinking"),
    }
}

/// Plans the stream of a request to the model `model_name`. What the request
/// asks is `prompt_text`, and the workspace that it names, if any, is
/// `extracted_workspace`.
pub fn handle_generic_stream(
    config: &RuntimeConfig,
    conn: &LsConnectionInfo,
    model_name: String,
    prompt_text: &str,
    extracted_workspace: Option<String>,
) -> (plan: StreamPlan)
    ensures
        plan.model_name == model_name,
        plan.opens(
            text::lowercase(model_name@),
            *config,
            *conn,
            prompt_text@,
            extracted_workspace,
        ),
{
    let lower = text::to_lowercase(model_name.as_str());
    plan_stream(lower.as_str(), config, conn, model_name, prompt_text, extracted_workspace)
}

/// The message with which a stream is refused on its first frame: only where
/// the engine denies permission. Any other first frame opens the stream.
pub fn first_frame_refusal(first: &Option<Result<CascadeDelta, Status>>) -> (refusal: Option<String>)
    ensures
        match *first {
            Some(Err(status)) if status.code == PERMISSION_DENIED => refusal matches Some(message)
                && message@ == status.message@,
            _ => refusal is None,
        },
{
    match first {
        Some(Err(status)) => if status.code == PERMISSION_DENIED {
            Some(status.message.clone())
        } else {
            None
        },
        _ => None,
    }
}

/// The model of the plan is lite where its name in lower case has "lite" in it,
/// and only then is it told to reason between tags; any other model is told the
/// language alone, also one that reasons. Behind that stands what is asked, as it
/// is. Text waits for the reasoning where the name has "thinking" in it.
pub open spec fn suits_model(plan: StreamPlan, lower: Seq<char>, prompt_text: Seq<char>) -> bool {
    &&& plan.is_lite <==> text::has_stretch(lower, "lite"@)
    &&& plan.force_reasoning_before_text <==> text::has_stretch(lower, "thinking"@)
    &&& text::has_stretch(lower, "lite"@) ==> plan.prompt@ == "[System Instruction]\nYou must first perform a step-by-step reasoning process within <thought>...</thought> tags before providing your final answer. Please reason in Chinese. (请务必先并在 <thought> 标签内使用中文进行过程推理，然后再给出最终答案)\n\n"@ + prompt_text
    &&& !text::has_stretch(lower, "lite"@) ==> plan.prompt@ == "[System Instruction]\nPlease reason in Chinese. (请务必使用中文进行思考)\n\n"@ + prompt_text
}

/// The client of the plan talks to the server of the connection, with its token
/// and its certificate, as the IDE; and it works in the workspace of the
/// connection, or else in the one that the request names.
pub open spec fn suits_connection(
    plan: StreamPlan,
    config: RuntimeConfig,
    conn: LsConnectionInfo,
    extracted: Option<String>,
) -> bool {
    &&& plan.model_id == conn.resolved_model_id
    &&& plan.client.tls_cert@ == conn.tls_cert@
    &&& conn.csrf_token matches Some(token) ==> plan.client.auth_token@ == token@
    &&& conn.csrf_token is None ==> plan.client.auth_token@.len() == 0
    &&& plan.client.metadata.ide_name@ == config.ide_name@
    &&& plan.client.metadata.ide_version@ == config.version@
    &&& plan.client.metadata.extension_name@ == config.extension_name@
    &&& plan.client.metadata.extension_version@ == config.version@
    &&& conn.workspace_dir matches Some(dir) ==> is_client_of(
        plan.client,
        conn.grpc_addr@,
        Some(dir@),
    )
    &&& conn.workspace_dir is None ==> is_client_of(
        plan.client,
        conn.grpc_addr@,
        dir_text(extracted),
    )
}

/// A plan suits its model and its connection.
proof fn lemma_plan(
    plan: StreamPlan,
    lower: Seq<char>,
    config: RuntimeConfig,
    conn: LsConnectionInfo,
    prompt_text: Seq<char>,
    extracted: Option<String>,
)
    requires
        plan.opens(lower, config, conn, prompt_text, extracted),
    ensures
        suits_model(plan, lower, prompt_text),
        suits_connection(plan, config, conn, extracted),
{
    text::law_stretches_are_contained(lower, "lite"@);
    text::law_stretches_are_contained(lower, "thinking"@);
    lemma_client_of(plan.client, conn.grpc_addr@, workspace_of(conn, extracted));
}

/// The plan of a stream suits its model and its connection, for every name.
pub proof fn law_plan_suits_model_and_connection(
    lower: &str,
    config: &RuntimeConfig,
    conn: &LsConnectionInfo,
    model_name: String,
    prompt_text: &str,
    extracted: Option<String>,
    plan: StreamPlan,
)
    requires
        call_ensures(
            plan_stream,
            (lower, config, conn, model_name, prompt_text, extracted),
            plan,
        ),
    ensures
        plan.model_name@ == model_name@,
        suits_model(plan, lower@, prompt_text@),
        suits_connection(plan, *config, *conn, extracted),
{
    lemma_plan(plan, lower@, *config, *conn, prompt_text@, extracted);
}

/// A stream is planned for its model by the name in lower case.
pub proof fn law_stream_suits_model_and_connection(
    config: &RuntimeConfig,
    conn: &LsConnectionInfo,
    model_name: String,
    prompt_text: &str,
    extracted: Option<String>,
    plan: StreamPlan,
)
    requires
        call_ensures(
            handle_generic_stream,
            (config, conn, model_name, prompt_text, extracted),
            plan,
        ),
    ensures
        plan.model_name@ == model_name@,
        suits_model(plan, text::lowercase(model_name@), prompt_text@),
        suits_connection(plan, *config, *conn, extracted),
{
    lemma_plan(plan, text::lowercase(model_name@), *config, *conn, prompt_text@, extracted);
}

/// A stream is planned for every name and every connection, and every first
/// frame is looked at.
pub proof fn law_every_stream_is_planned(
    lower: &str,
    config: &RuntimeConfig,
    conn: &LsConnectionInfo,
    model_name: String,
    prompt_text: &str,
    extracted: Option<String>,
    first: &Option<Result<CascadeDelta, Status>>,
)
    ensures
        call_requires(plan_stream, (lower, config, conn, model_name, prompt_text, extracted)),
        call_requires(handle_generic_stream, (config, conn, model_name, prompt_text, extracted)),
        call_requires(first_frame_refusal, (first, )),
{
}

/// A stream is refused where its first frame is a failure for want of
/// permission, with the message of that failure, and nowhere else.
pub proof fn law_only_denied_permission_refuses(
    first: &Option<Result<CascadeDelta, Status>>,
    refusal: Option<String>,
)
    requires
        call_ensures(first_frame_refusal, (first, ), refusal),
    ensures
        refusal is Some <==> (*first matches Some(Err(status)) && status.code == 7),
        refusal matches Some(message) ==> message@ == first->0->Err_0.message@,
{
}

} // verus!
