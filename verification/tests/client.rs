use transcoder_core::cascade::client::{
    CascadeClient, CortexTrajectoryType, Metadata, PlannerTypeConfig,
};
use transcoder_core::cascade::poll::{PollAction, PollReport};

fn metadata() -> Metadata {
    Metadata {
        ide_name: "ide".to_string(),
        ide_version: "1.2".to_string(),
        extension_name: "ext".to_string(),
        extension_version: "3.4".to_string(),
    }
}

fn client(addr: &str, token: &str, workspace: Option<&str>) -> CascadeClient {
    CascadeClient::new(
        addr.to_string(),
        metadata(),
        token.to_string(),
        vec![1, 2, 3],
        workspace.map(|w| w.to_string()),
    )
}

fn registered(workspace: &str) -> (String, String) {
    let registration = client("a", "t", Some(workspace)).registration.unwrap();
    let add = registration.add_tracked_workspace;
    assert!(add.do_not_watch_files);
    assert!(!add.is_passive_workspace);
    let uris = registration.set_working_directories.directory_uris;
    assert_eq!(uris.len(), 1);
    (add.workspace, uris[0].clone())
}

fn pair(a: &str, b: &str) -> (String, String) {
    (a.to_string(), b.to_string())
}

#[test]
fn address_without_scheme_gets_tls() {
    assert_eq!(client("127.0.0.1:42100", "t", None).endpoint, "https://127.0.0.1:42100");
    assert_eq!(client("http://h:1", "t", None).endpoint, "http://h:1");
    assert_eq!(client("https://h:1", "t", None).endpoint, "https://h:1");
    assert_eq!(client("httpd.local:1", "t", None).endpoint, "httpd.local:1");
    assert_eq!(client("htt", "t", None).endpoint, "https://htt");
    assert_eq!(client("", "t", None).endpoint, "https://");
}

#[test]
fn workspace_is_registered_by_path_and_uri() {
    assert_eq!(registered("/Users/xxx/cse3"), pair("/Users/xxx/cse3", "file:///Users/xxx/cse3"));
    assert_eq!(
        registered("file:///Users/xxx/cse3"),
        pair("/Users/xxx/cse3", "file:///Users/xxx/cse3")
    );
    assert_eq!(registered("C:/work"), pair("C:/work", "file:///C:/work"));
    assert_eq!(registered("file://file:///工作"), pair("/工作", "file:///工作"));
    assert_eq!(registered("file://"), pair("", "file:///"));
    assert_eq!(registered("/x/file://y"), pair("/x/file://y", "file:///x/file://y"));
}

#[test]
fn uri_leads_back_to_an_absolute_path() {
    let (bare, uri) = registered("file:///a/b");
    assert_eq!(registered(&uri), (bare, uri));
    assert_eq!(registered("file:///C:/work"), pair("/C:/work", "file:///C:/work"));
}

#[test]
fn no_workspace_is_not_registered() {
    assert!(client("a", "t", None).registration.is_none());
    assert!(client("a", "t", Some("")).registration.is_none());
}

#[test]
fn client_keeps_what_it_is_given() {
    let client = client("a", "token", None);
    assert_eq!(client.tls_cert, vec![1, 2, 3]);
    assert_eq!(client.metadata, metadata());
    assert_eq!(client.auth_token, "token");
}

#[test]
fn tokens_that_can_be_sent() {
    assert!(client("a", "", None).can_authorize());
    assert!(client("a", "abc-DEF_123 ~", None).can_authorize());
    assert!(client("a", "tab\there", None).can_authorize());
    assert!(client("a", "令牌", None).can_authorize());
    assert!(!client("a", "line\nbreak", None).can_authorize());
    assert!(!client("a", "del\u{7f}", None).can_authorize());
    assert!(!client("a", "nul\0", None).can_authorize());
    assert!(!client("a", "\u{1f}", None).can_authorize());
}

#[test]
fn requests_carry_the_token() {
    let client = client("a", "token", None);
    let request = client.auth_request(42u8);
    assert_eq!(request.header, "x-codeium-csrf-token");
    assert_eq!(request.token, "token");
    assert_eq!(request.message, 42);
    let start = client.start_request();
    assert_eq!(start.header, "x-codeium-csrf-token");
    assert_eq!(start.token, "token");
    assert_eq!(start.message.metadata, metadata());
    assert_eq!(start.message.trajectory_type, CortexTrajectoryType::Cascade);
    let poll = client.trajectory_request("id".to_string());
    assert_eq!(poll.token, "token");
    assert_eq!(poll.message.cascade_id, "id");
}

#[test]
fn chat_says_the_text_to_the_model() {
    let client = client("a", "token", None);
    let (request, mut poll) = client.chat_stream(
        "id".to_string(),
        "hello".to_string(),
        312,
        vec![7u8],
        vec!["m"],
        false,
    );
    assert_eq!(request.token, "token");
    let message = request.message;
    assert_eq!(message.metadata, metadata());
    assert_eq!(message.cascade_id, "id");
    assert_eq!(message.items, vec!["hello".to_string()]);
    assert_eq!(message.images, vec![7u8]);
    assert_eq!(message.media, vec!["m"]);
    assert_eq!(message.planner_config.requested_model, 312);
    assert_eq!(
        message.planner_config.planner_type_config,
        PlannerTypeConfig::Conversational
    );
    assert_eq!(poll.settle(PollReport::Empty, 300_000_000_000), PollAction::Wait(500));
    assert_eq!(
        poll.settle(PollReport::Empty, 300_000_000_001),
        PollAction::Finish(vec![])
    );
}
