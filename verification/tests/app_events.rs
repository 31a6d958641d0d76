use echo_agent::error::{request_failed, AgentError, AppError, LlmError, ReactError, ToolError};
use echo_agent::events::{
    channel_name, persistence_error_payload, stream_item, stream_refused, AgentEvent, AgentPhase,
    ChatRun, StreamPayload, StreamStep,
};
use echo_agent::http::{
    bearer_token, cookie_token, data_directory, frontend_url, is_authorized, query_token,
    request_token, server_token, status_code, web_port, workspace_candidates,
};

#[test]
fn persistence_failure_marks_stream_failed_and_returns_error_payload() {
    let mut ok = true;
    let mut final_err = None;

    let payload = persistence_error_payload(
        Err(AppError::PersistenceWrite("disk full".to_string())),
        &mut ok,
        &mut final_err,
    )
    .unwrap();

    assert!(!ok);
    assert_eq!(final_err.as_deref(), Some("持久化写入失败: disk full"));
    assert!(matches!(
        payload,
        StreamPayload::Error { source, message }
            if source == "persistence" && message == "持久化写入失败: disk full"
    ));
}

#[test]
fn a_stored_session_changes_nothing() {
    let mut ok = true;
    let mut final_err = None;
    assert!(persistence_error_payload(Ok(()), &mut ok, &mut final_err).is_none());
    assert!(ok);
    assert!(final_err.is_none());
}

#[test]
fn a_run_ends_once() {
    let mut run = ChatRun::new();
    assert!(run.stream_ended("chat", Ok(())).is_none());
    assert!(run.stores_session());
    assert!(matches!(
        run.done(12),
        StreamPayload::Done { elapsed_ms: 12, ok: true, error: None }
    ));
    let mut run = ChatRun::new();
    run.stream_ended("chat", Err(AppError::AgentExec("boom".to_string())));
    assert!(matches!(run.done(1), StreamPayload::Done { ok: false, error: Some(_), .. }));
}

#[test]
fn items_of_a_stream() {
    assert!(matches!(
        stream_item(Ok(AgentEvent::Token("x".to_string()))),
        StreamStep::Send(StreamPayload::Token { delta }) if delta == "x"
    ));
    assert!(matches!(stream_item(Err("bad".to_string())), StreamStep::Fail(..)));
    assert!(matches!(stream_refused("chat", "no"), StreamStep::Fail(..)));
    assert!(channel_name("s1").ends_with("s1"));
}

#[test]
fn tokens_of_an_event() {
    let end = AgentEvent::ThinkEnd { prompt_tokens: 3, completion_tokens: 4 };
    assert_eq!(end.prompt_tokens(), Some(3));
    assert_eq!(end.completion_tokens(), Some(4));
    assert_eq!(end.total_tokens(), Some(7));
    assert_eq!(AgentEvent::Cancelled.total_tokens(), None);
    assert!(AgentEvent::FinalAnswer("a".to_string()).phase() == AgentPhase::Terminal);
    assert!(AgentEvent::ThinkStart.phase() == AgentPhase::Thinking);
}

#[test]
fn tokens_are_found_in_the_request() {
    assert_eq!(bearer_token(Some("Bearer abc")).as_deref(), Some("abc"));
    assert_eq!(bearer_token(Some("Basic abc")), None);
    assert_eq!(bearer_token(None), None);
    assert_eq!(
        request_token(Some("Bearer abc"), None, Some("token=def")).as_deref(),
        Some("abc")
    );
    assert_eq!(query_token(Some("a=1&token=def")).as_deref(), Some("def"));
    assert!(is_authorized("abc", Some("Bearer abc"), None, None));
    assert!(!is_authorized("abc", Some("Bearer abd"), None, None));
    assert!(!is_authorized("abc", None, None, None));
    assert!(cookie_token(None).is_none());
}

#[test]
fn errors_have_status_codes() {
    assert_eq!(status_code(&AppError::SessionNotFound("x".to_string())), 404);
    assert_eq!(status_code(&AppError::Internal("x".to_string())), 500);
}

#[test]
fn settings_of_the_server() {
    assert_eq!(server_token(Some("mine")), "mine");
    assert!(!server_token(None).is_empty());
    assert_ne!(server_token(None), server_token(None));
    assert_eq!(data_directory(Some("/d"), "/cur"), "/d");
    assert_eq!(web_port(Some("9000"), None), "9000");
    assert!(frontend_url("localhost", "9000", "t").contains("9000"));
    assert!(!workspace_candidates("/a/b").is_empty());
}

#[test]
fn errors_are_told() {
    assert_eq!(
        AppError::PersistenceWrite("disk full".to_string()).message(),
        "持久化写入失败: disk full"
    );
    let react: ReactError = ToolError::NotFound("ls".to_string()).into();
    assert!(react.message().contains("ls"));
    assert!(ReactError::from(AgentError::MaxIterationsExceeded(7)).message().contains('7'));
    assert!(matches!(AppError::from_react(react), AppError::AgentExec(_)));
}

#[test]
fn requests_that_fail_are_told() {
    let told = |timed_out, connect| match request_failed(timed_out, connect, "refused") {
        LlmError::NetworkError(m) => m,
        _ => panic!("a network error"),
    };
    assert_eq!(told(true, true), "Request timeout");
    assert_eq!(told(false, true), "Connection failed: refused");
    assert_eq!(told(false, false), "refused");
}
