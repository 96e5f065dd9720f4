//! The OpenCode server: requests, answers, events and the start of its process.

use helix_agent::opencode::client::{
    accept_events, accept_response, assistant_message, read_message, succeeded, Method,
    OpenCodeClient, DEFAULT_TIMEOUT_MS, HEALTH_TIMEOUT_MS, REPLY_TIMEOUT_MS,
};
use helix_agent::opencode::error::OpenCodeError;
use helix_agent::opencode::server::{
    ends_process, ServerStart, StartupAction, StartupEvent, HEALTH_POLL_INTERVAL_MS, MAX_ATTEMPTS,
};
use helix_agent::opencode::sse::EventBuffer;
use helix_agent::opencode::types::{
    Message, MessagePart, PermissionRequest, SendMessageRequest, ServerInfo,
};

fn permission(metadata: &str, patterns: Vec<String>) -> PermissionRequest {
    PermissionRequest {
        id: "per_1".to_string(),
        session_id: "ses_1".to_string(),
        permission: "edit".to_string(),
        patterns,
        metadata: metadata.to_string(),
        tool: None,
    }
}

#[test]
fn requests() {
    let client = OpenCodeClient::new(4096);
    assert_eq!(client.base_url(), "http://127.0.0.1:4096");
    let health = client.health_request();
    assert_eq!(health.method, Method::Get);
    assert_eq!(health.url, "http://127.0.0.1:4096/global/health");
    assert_eq!(health.timeout_ms, Some(HEALTH_TIMEOUT_MS));
    assert_eq!(client.agents_request().url, "http://127.0.0.1:4096/agent");
    let session = client.session_request();
    assert_eq!(session.method, Method::Post);
    assert_eq!(session.url, "http://127.0.0.1:4096/session");
    assert_eq!(session.timeout_ms, Some(DEFAULT_TIMEOUT_MS));
    assert_eq!(client.message_request("s1").url, "http://127.0.0.1:4096/session/s1/message");
    assert_eq!(client.messages_request("s1").method, Method::Get);
    assert_eq!(
        client.async_message_request("s1").url,
        "http://127.0.0.1:4096/session/s1/prompt_async"
    );
    let events = client.events_request();
    assert_eq!(events.url, "http://127.0.0.1:4096/event");
    assert_eq!(events.accept, Some("text/event-stream".to_string()));
    assert_eq!(events.timeout_ms, None);
}

#[test]
fn replies_carry_the_answer_and_the_feedback() {
    let client = OpenCodeClient::new(1);
    let reply = client.reply_request("per_1", "reject", Some("use \"tabs\"\n"));
    assert_eq!(reply.url, "http://127.0.0.1:1/permission/per_1/reply");
    assert_eq!(reply.timeout_ms, Some(REPLY_TIMEOUT_MS));
    let body: serde_json::Value = serde_json::from_str(&reply.body.unwrap()).unwrap();
    assert_eq!(body["reply"], "reject");
    assert_eq!(body["message"], "use \"tabs\"\n");
    assert_eq!(body.as_object().unwrap().len(), 2);
    let reply = client.reply_request("per_1", "once", None);
    let body: serde_json::Value = serde_json::from_str(&reply.body.unwrap()).unwrap();
    assert_eq!(body["reply"], "once");
    assert_eq!(body.as_object().unwrap().len(), 1);
}

#[test]
fn statuses() {
    assert!(!succeeded(199));
    assert!(succeeded(200));
    assert!(succeeded(299));
    assert!(!succeeded(300));
    assert_eq!(accept_response(200, "ok".to_string()), Ok("ok".to_string()));
    assert_eq!(
        accept_response(404, "gone".to_string()),
        Err(OpenCodeError::HttpError(404, "gone".to_string()))
    );
    assert_eq!(accept_events(204), Ok(()));
    assert_eq!(
        accept_events(500),
        Err(OpenCodeError::HttpError(500, "SSE connection failed".to_string()))
    );
}

#[test]
fn sent_message_is_answered_by_the_assistant() {
    let parts = vec![MessagePart::Text { text: "hi".to_string() }];
    let message =
        read_message("s1", "{\"info\":{\"id\":\"msg_1\"},\"parts\":[]}", Some(parts)).unwrap();
    assert_eq!(message.id, "msg_1");
    assert_eq!(message.role, "assistant");
    assert_eq!(message.session_id, Some("s1".to_string()));
    assert_eq!(message.text_content(), "hi");
    let message = read_message("s1", "{}", None).unwrap();
    assert_eq!(message.id, "");
    assert!(message.parts.is_empty());
    match read_message("s1", "{broken", None) {
        Err(OpenCodeError::JsonError(fault)) => assert!(fault.contains("line 1")),
        _ => panic!("expected a JSON error"),
    }
    assert_eq!(
        assistant_message("s1", Some("bad".to_string()), None, None),
        Err(OpenCodeError::JsonError("bad".to_string()))
    );
}

#[test]
fn message_text() {
    let message = Message {
        id: "m".to_string(),
        role: "user".to_string(),
        parts: vec![
            MessagePart::Text { text: "Hello, ".to_string() },
            MessagePart::Unknown,
            MessagePart::Text { text: "world".to_string() },
        ],
        session_id: None,
    };
    assert_eq!(message.text_content(), "Hello, world");
    let request = SendMessageRequest::text("hey");
    assert_eq!(request.parts, vec![MessagePart::Text { text: "hey".to_string() }]);
    assert_eq!(request.agent, None);
    let request = SendMessageRequest::text_with_agent("hey", "build");
    assert_eq!(request.agent, Some("build".to_string()));
}

#[test]
fn permission_requests() {
    let request = permission("{\"filepath\":\"/a/b.rs\",\"diff\":\"@@ -1 +1 @@\"}", Vec::new());
    assert_eq!(request.file_path(), Some("/a/b.rs".to_string()));
    assert_eq!(request.diff(), Some("@@ -1 +1 @@".to_string()));
    assert_eq!(request.display_name(), "/a/b.rs");
    let request = permission("{\"filepath\":\"/a/b.rs\"}", vec!["b.rs".to_string()]);
    assert_eq!(request.display_name(), "b.rs");
    assert_eq!(request.diff(), None);
    let request = permission("{\"filepath\":7}", Vec::new());
    assert_eq!(request.file_path(), None);
    assert_eq!(request.display_name(), "edit");
    let request = permission("not json", Vec::new());
    assert_eq!(request.file_path(), None);
}

#[test]
fn errors_as_text() {
    let text = |e: OpenCodeError| e.message();
    assert_eq!(text(OpenCodeError::ServerNotRunning), "OpenCode server is not running");
    assert_eq!(
        text(OpenCodeError::ConnectionFailed("x".to_string())),
        "Failed to connect to OpenCode: x"
    );
    assert_eq!(text(OpenCodeError::Timeout), "OpenCode request timed out");
    assert_eq!(
        text(OpenCodeError::InvalidResponse("x".to_string())),
        "Invalid response from OpenCode: x"
    );
    assert_eq!(
        text(OpenCodeError::SpawnFailed("x".to_string())),
        "Failed to start OpenCode server: x"
    );
    assert_eq!(
        text(OpenCodeError::ServerCrashed("x".to_string())),
        "OpenCode server crashed: x"
    );
    assert_eq!(
        text(OpenCodeError::HttpError(404, "x".to_string())),
        "OpenCode HTTP error 404: x"
    );
    assert_eq!(text(OpenCodeError::JsonError("x".to_string())), "OpenCode JSON error: x");
    assert_eq!(OpenCodeError::from_transport(true, "x".to_string()), OpenCodeError::Timeout);
    assert_eq!(
        OpenCodeError::from_transport(false, "x".to_string()),
        OpenCodeError::ConnectionFailed("x".to_string())
    );
}

#[test]
fn events_come_whole_however_they_are_cut() {
    let stream = "data: {\"a\":1}\n\nevent: x\ndata: {\"b\":2}\n\n: comment\n\ndata: {\"c\"";
    let mut whole = EventBuffer::new();
    let at_once = whole.push_text(stream);
    assert_eq!(at_once, vec!["{\"a\":1}".to_string(), "{\"b\":2}".to_string()]);
    let mut piecemeal = EventBuffer::new();
    let mut got = Vec::new();
    for c in stream.chars() {
        got.extend(piecemeal.push_text(&c.to_string()));
    }
    assert_eq!(got, at_once);
    assert_eq!(piecemeal.push_text(":3}\n\n"), vec!["{\"c\":3}".to_string()]);
}

#[test]
fn event_bytes_need_not_be_utf8() {
    let mut buffer = EventBuffer::new();
    assert_eq!(buffer.push_bytes(b"data: a\xffb\n\n"), vec!["a\u{fffd}b".to_string()]);
}

#[test]
fn running_server_is_reused() {
    let (mut start, action) = ServerStart::new(4096, "opencode".to_string());
    assert_eq!(action, StartupAction::CheckHealth);
    match start.step(StartupEvent::Health(true)) {
        StartupAction::Done(info) => {
            assert_eq!(info.port, 4096);
            assert_eq!(info.url, "http://127.0.0.1:4096");
            assert!(!info.managed);
            assert!(!ends_process(&info));
        }
        _ => panic!("expected the server"),
    }
}

#[test]
fn started_server_is_managed() {
    let (mut start, _) = ServerStart::new(7, "opencode".to_string());
    let args = vec!["serve".to_string(), "--port".to_string(), "7".to_string()];
    assert_eq!(start.step(StartupEvent::Health(false)), StartupAction::Spawn { args });
    let pause = StartupAction::Sleep { ms: HEALTH_POLL_INTERVAL_MS };
    assert_eq!(start.step(StartupEvent::Spawned), pause);
    assert_eq!(start.step(StartupEvent::Slept), StartupAction::CheckHealth);
    assert_eq!(start.step(StartupEvent::Health(false)), pause);
    assert_eq!(start.step(StartupEvent::Slept), StartupAction::CheckHealth);
    let info = ServerInfo { port: 7, url: "http://127.0.0.1:7".to_string(), managed: true };
    assert_eq!(start.step(StartupEvent::Health(true)), StartupAction::Done(info));
}

#[test]
fn startup_gives_up_after_its_time() {
    let (mut start, _) = ServerStart::new(7, "opencode".to_string());
    start.step(StartupEvent::Health(false));
    start.step(StartupEvent::Spawned);
    let mut last = StartupAction::CheckHealth;
    for _ in 0..MAX_ATTEMPTS {
        assert_eq!(start.step(StartupEvent::Slept), StartupAction::CheckHealth);
        last = start.step(StartupEvent::Health(false));
    }
    assert_eq!(last, StartupAction::GiveUp(OpenCodeError::Timeout));
}

#[test]
fn startup_fails_without_the_program() {
    let (mut start, _) = ServerStart::new(7, "/bin/opencode".to_string());
    start.step(StartupEvent::Health(false));
    assert_eq!(
        start.step(StartupEvent::SpawnFailed("No such file".to_string())),
        StartupAction::GiveUp(OpenCodeError::SpawnFailed(
            "Failed to run '/bin/opencode': No such file. Is opencode installed?".to_string()
        ))
    );
}
