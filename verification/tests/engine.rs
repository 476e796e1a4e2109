use transcoder_core::grpc::Status;
use transcoder_core::mappers::delta::CascadeDelta;
use transcoder_core::mappers::engine::{
    first_frame_refusal, handle_generic_stream, plan_stream, LsConnectionInfo, RuntimeConfig,
    StreamPlan,
};

const LITE: &str = "[System Instruction]\nYou must first perform a step-by-step reasoning process within <thought>...</thought> tags before providing your final answer. Please reason in Chinese. (请务必先并在 <thought> 标签内使用中文进行过程推理，然后再给出最终答案)\n\n";
const NATIVE: &str = "[System Instruction]\nPlease reason in Chinese. (请务必使用中文进行思考)\n\n";

fn config() -> RuntimeConfig {
    RuntimeConfig {
        ide_name: "ide".to_string(),
        extension_name: "ext".to_string(),
        version: "9".to_string(),
    }
}

fn conn() -> LsConnectionInfo {
    LsConnectionInfo {
        grpc_addr: "h:1".to_string(),
        csrf_token: Some("tok".to_string()),
        tls_cert: vec![4, 5],
        workspace_dir: None,
        resolved_model_id: 77,
        account_email: None,
    }
}

fn open(model: &str) -> StreamPlan {
    handle_generic_stream(&config(), &conn(), model.to_string(), "hi", None)
}

#[test]
fn lite_model_is_told_to_write_its_reasoning_down() {
    let plan = open("Gemini-Flash-LITE");
    assert!(plan.is_lite);
    assert!(!plan.force_reasoning_before_text);
    assert_eq!(plan.prompt, format!("{}hi", LITE));
    assert_eq!(plan.model_name, "Gemini-Flash-LITE");
}

#[test]
fn thinking_model_holds_its_text_back() {
    let plan = open("sonnet-Thinking");
    assert!(!plan.is_lite);
    assert!(plan.force_reasoning_before_text);
    assert_eq!(plan.prompt, format!("{}hi", NATIVE));
}

#[test]
fn plain_model_is_neither() {
    let plan = open("gpt");
    assert!(!plan.is_lite);
    assert!(!plan.force_reasoning_before_text);
    assert_eq!(plan.model_id, 77);
    assert!(open("elite-thinking").is_lite);
    assert!(open("elite-thinking").force_reasoning_before_text);
}

#[test]
fn only_the_lower_case_name_counts() {
    let plan = plan_stream("lite", &config(), &conn(), "X".to_string(), "", None);
    assert!(plan.is_lite);
    assert_eq!(plan.model_name, "X");
    assert_eq!(plan.prompt, LITE);
    let plan = plan_stream("LITE", &config(), &conn(), "lite".to_string(), "", None);
    assert!(!plan.is_lite);
}

#[test]
fn client_presents_the_ide() {
    let client = open("m").client;
    assert_eq!(client.metadata.ide_name, "ide");
    assert_eq!(client.metadata.ide_version, "9");
    assert_eq!(client.metadata.extension_name, "ext");
    assert_eq!(client.metadata.extension_version, "9");
    assert_eq!(client.endpoint, "https://h:1");
    assert_eq!(client.auth_token, "tok");
    assert_eq!(client.tls_cert, vec![4, 5]);
    assert!(client.registration.is_none());
}

#[test]
fn missing_token_is_empty() {
    let mut conn = conn();
    conn.csrf_token = None;
    let plan = handle_generic_stream(&config(), &conn, "m".to_string(), "", None);
    assert_eq!(plan.client.auth_token, "");
}

fn workspace(of_conn: Option<&str>, extracted: Option<&str>) -> Option<String> {
    let mut conn = conn();
    conn.workspace_dir = of_conn.map(|s| s.to_string());
    let plan = handle_generic_stream(
        &config(),
        &conn,
        "m".to_string(),
        "",
        extracted.map(|s| s.to_string()),
    );
    plan.client.registration.map(|r| r.add_tracked_workspace.workspace)
}

#[test]
fn workspace_of_the_connection_goes_first() {
    assert_eq!(workspace(Some("/c"), Some("/r")), Some("/c".to_string()));
    assert_eq!(workspace(None, Some("file:///r")), Some("/r".to_string()));
    assert_eq!(workspace(Some(""), Some("/r")), None);
    assert_eq!(workspace(None, None), None);
}

#[test]
fn only_denied_permission_refuses_the_stream() {
    let denied = Status { code: 7, message: "forbidden".to_string() };
    assert_eq!(first_frame_refusal(&Some(Err(denied))), Some("forbidden".to_string()));
    let down = Status { code: 14, message: "down".to_string() };
    assert_eq!(first_frame_refusal(&Some(Err(down))), None);
    assert_eq!(first_frame_refusal(&Some(Ok(CascadeDelta::Text("x".to_string())))), None);
    assert_eq!(first_frame_refusal(&None), None);
    assert_eq!(i32::from(tonic::Code::PermissionDenied), 7);
}
