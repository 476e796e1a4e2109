use transcoder_core::grpc::Status;
use transcoder_core::mappers::delta::CascadeDelta;
use transcoder_core::mappers::transcode::{
    count_tokens, stream_metadata, MapperCall, TranscodeSession,
};

fn text(s: &str) -> CascadeDelta {
    CascadeDelta::Text(s.to_string())
}

fn thinking(s: &str) -> CascadeDelta {
    CascadeDelta::Thinking(s.to_string())
}

fn last() -> MapperCall {
    MapperCall { delta: text(""), is_final: true }
}

/// Takes a frame in, and gives all its pieces.
fn pieces(session: &mut TranscodeSession, delta: CascadeDelta) -> Vec<CascadeDelta> {
    assert_eq!(session.process_one_delta(Ok(delta)), Ok(()));
    let mut out = vec![];
    while let Some(piece) = session.next_delta() {
        out.push(piece);
    }
    out
}

fn output_tokens(session: &TranscodeSession) -> u32 {
    session.usage("", "m", &None).output_tokens
}

#[test]
fn native_model_passes_unchanged() {
    let mut session = TranscodeSession::new(false);
    for delta in vec![text("a<thought>b</thought>"), thinking("t"), text(""), thinking("")] {
        let copy = match &delta {
            CascadeDelta::Text(s) => text(s),
            CascadeDelta::Thinking(s) => thinking(s),
        };
        assert_eq!(pieces(&mut session, delta), vec![copy]);
    }
}

#[test]
fn lite_model_is_stripped_across_deltas() {
    let mut session = TranscodeSession::new(true);
    assert_eq!(pieces(&mut session, text("<thought>one ")), vec![thinking("one ")]);
    assert_eq!(pieces(&mut session, thinking("raw")), vec![thinking("raw")]);
    assert_eq!(
        pieces(&mut session, text("two</thought>three")),
        vec![thinking("two"), text("three")]
    );
    assert_eq!(pieces(&mut session, text("")), vec![]);
    assert_eq!(output_tokens(&session), 1);
}

#[test]
fn frame_is_handed_on_piece_by_piece() {
    let mut session = TranscodeSession::new(true);
    let frame = text("12345678<thought>reasoning</thought>90123456");
    assert_eq!(session.process_one_delta(Ok(frame)), Ok(()));
    assert!(session.saw_any_delta());
    assert_eq!(output_tokens(&session), 1);
    assert_eq!(session.next_delta(), Some(text("12345678")));
    assert_eq!(output_tokens(&session), 2);
    assert_eq!(session.next_delta(), Some(thinking("reasoning")));
    assert_eq!(output_tokens(&session), 2);
    assert_eq!(session.next_delta(), Some(text("90123456")));
    assert_eq!(output_tokens(&session), 4);
    assert_eq!(session.next_delta(), None);
    assert_eq!(session.next_delta(), None);
}

#[test]
fn rest_of_a_frame_that_was_not_mapped_has_no_effect() {
    let mut session = TranscodeSession::new(true);
    assert_eq!(session.process_one_delta(Ok(text("a<thought>b and much more"))), Ok(()));
    assert_eq!(session.next_delta(), Some(text("a")));
    assert!(session.saw_any_delta());
    assert_eq!(output_tokens(&session), 1);
    // Still outside of a thought: the tag was not reached.
    assert_eq!(pieces(&mut session, text("1234567")), vec![text("1234567")]);
    assert_eq!(output_tokens(&session), 2);
}

#[test]
fn state_flips_before_the_piece_behind_the_tag() {
    let mut session = TranscodeSession::new(true);
    assert_eq!(session.process_one_delta(Ok(text("a<thought>b</thought>c"))), Ok(()));
    assert_eq!(session.next_delta(), Some(text("a")));
    assert_eq!(session.next_delta(), Some(thinking("b")));
    assert_eq!(pieces(&mut session, text("d")), vec![thinking("d")]);
}

#[test]
fn tag_at_the_end_of_a_frame_holds_for_the_next() {
    let mut session = TranscodeSession::new(true);
    assert_eq!(pieces(&mut session, text("a<thought>")), vec![text("a")]);
    assert_eq!(pieces(&mut session, text("b</thought>")), vec![thinking("b")]);
    assert_eq!(pieces(&mut session, text("c")), vec![text("c")]);
}

#[test]
fn native_text_is_charged_when_it_is_handed_on() {
    let mut session = TranscodeSession::new(false);
    assert_eq!(session.process_one_delta(Ok(text("12345678"))), Ok(()));
    assert_eq!(output_tokens(&session), 1);
    assert_eq!(session.next_delta(), Some(text("12345678")));
    assert_eq!(output_tokens(&session), 2);
    assert_eq!(session.next_delta(), None);
}

#[test]
fn failure_is_told_in_a_line() {
    let mut session = TranscodeSession::new(false);
    let status = Status { code: 14, message: "down".to_string() };
    assert_eq!(
        session.process_one_delta(Err(status)),
        Err("gRPC 错误 [The service is currently unavailable]: down".to_string())
    );
    assert!(!session.saw_any_delta());
}

#[test]
fn empty_stream_is_noticed() {
    let mut session = TranscodeSession::new(false);
    session.process_one_delta(Ok(text(""))).unwrap();
    session.process_one_delta(Ok(thinking(""))).unwrap();
    assert!(!session.saw_any_delta());
    assert_eq!(
        session.closing_calls(None),
        vec![
            MapperCall {
                delta: text("内核返回内容为空，可能触发了 403 权限或网络异常。"),
                is_final: false,
            },
            last(),
        ]
    );
    assert_eq!(
        session.closing_calls(Some("stderr".to_string())),
        vec![MapperCall { delta: text("stderr"), is_final: false }, last()]
    );
}

#[test]
fn stream_with_characters_is_closed_without_notice() {
    let mut session = TranscodeSession::new(false);
    session.process_one_delta(Ok(thinking("t"))).unwrap();
    assert!(session.saw_any_delta());
    assert_eq!(session.closing_calls(Some("stderr".to_string())), vec![last()]);
    let mut session = TranscodeSession::new(true);
    session.process_one_delta(Ok(text("<thought>"))).unwrap();
    assert_eq!(session.closing_calls(None), vec![last()]);
}

#[test]
fn tokens_are_quarters_of_bytes() {
    assert_eq!(count_tokens(""), 1);
    assert_eq!(count_tokens("abcdefg"), 1);
    assert_eq!(count_tokens("abcdefgh"), 2);
    assert_eq!(count_tokens("四个汉字"), 3);
}

#[test]
fn only_text_is_charged() {
    let mut session = TranscodeSession::new(true);
    pieces(&mut session, text("12345678<thought>long reasoning</thought>90123456"));
    pieces(&mut session, thinking("more reasoning"));
    let usage = session.usage("twelve bytes", "model", &Some("me@x".to_string()));
    assert_eq!(usage.account, "me@x");
    assert_eq!(usage.model_name, "model");
    assert_eq!(usage.input_tokens, 3);
    assert_eq!(usage.output_tokens, 4);
    let metadata = stream_metadata(&usage);
    assert_eq!(metadata.input_tokens, 3);
    assert_eq!(metadata.output_tokens, 4);
    assert!(metadata.error.is_none());
    assert_eq!(session.usage("", "model", &None).account, "anonymous");
}
