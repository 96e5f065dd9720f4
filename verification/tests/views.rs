//! The chat overlay and the review of edits.

use helix_agent::opencode::client::OpenCodeClient;
use helix_agent::opencode::types::{MessagePart, PartDeltaProperties, PermissionRequest};
use helix_agent::ui::agent_overlay::{AgentOverlay, ChatAction};
use helix_agent::ui::agent_stream::{
    event_kind, plan_permission, read_status, EventKind, Exchange, Incoming, OverlayUpdate,
    PermissionMode, StreamAction, StreamEvent,
};
use helix_agent::ui::chat::{ChatStyles, DisplayLine};
use helix_agent::ui::diff_lines::{pair_candidates, DiffLine, WordPair, WordSegment};
use helix_agent::ui::draw::{Color, DrawOp, Rect, Style, Theme};
use helix_agent::ui::keys::{Event, Key, KeyCode};
use helix_agent::ui::permission_view::{
    deferred_status, proposed_edit, reply_failure, PermDiffLine, PermissionDiffView, ReviewAction,
};

fn theme() -> Theme {
    let plain = Style::new();
    Theme {
        background: plain,
        separator: plain,
        popup_info: plain,
        text: plain,
        text_focus: plain,
        directory: plain.with_fg(Color::Blue),
        whitespace: plain,
        inlay_hint: plain,
        statusline: plain,
        line_number: plain,
        cursor: plain,
        highlight: None,
        selection: plain.with_bg(Color::Gray),
        header: plain,
        header_column: plain.with_fg(Color::White),
        active_column: plain.with_fg(Color::Yellow),
        special: plain.with_fg(Color::Magenta),
        string: plain.with_fg(Color::Green),
        heading: plain,
        warning: plain,
        error: plain.with_fg(Color::Red),
        diff_plus: plain.with_fg(Color::Green),
        diff_minus: plain.with_fg(Color::Red),
        diff_delta: plain.with_fg(Color::Cyan),
    }
}

fn key(c: char) -> Event {
    Event::Key(Key::plain(KeyCode::Char(c)))
}

fn press(code: KeyCode) -> Event {
    Event::Key(Key::plain(code))
}

fn typed(overlay: &mut AgentOverlay, text: &str) {
    for c in text.chars() {
        assert!(matches!(overlay.handle_event(&key(c), 0, true), ChatAction::Consumed));
    }
}

fn request(metadata: &str) -> PermissionRequest {
    PermissionRequest {
        id: "per_1".to_string(),
        session_id: "s1".to_string(),
        permission: "edit".to_string(),
        patterns: vec!["src/lib.rs".to_string()],
        metadata: metadata.to_string(),
        tool: None,
    }
}

fn diff_lines() -> Vec<DiffLine> {
    vec![
        DiffLine::HunkHeader { text: "@@ -1,2 +1,2 @@".to_string() },
        DiffLine::Context { base_line: Some(1), doc_line: Some(1), content: "a".to_string() },
        DiffLine::Deletion { base_line: 2, content: "old".to_string() },
        DiffLine::Addition { doc_line: 2, content: "new".to_string() },
    ]
}

fn review() -> PermissionDiffView {
    PermissionDiffView::new(request("{}"), OpenCodeClient::new(1), 1, 2, diff_lines())
}

#[test]
fn message_is_sent() {
    let mut overlay = AgentOverlay::new().with_agent("build".to_string(), "Build".to_string());
    typed(&mut overlay, "hello");
    match overlay.handle_event(&press(KeyCode::Enter), 0, true) {
        ChatAction::Send { message, session_id, agent_id } => {
            assert_eq!(message, "hello");
            assert_eq!(session_id, None);
            assert_eq!(agent_id, Some("build".to_string()));
        }
        _ => panic!("expected a message"),
    }
    assert!(overlay.loading);
    assert!(overlay.input.is_empty());
    assert_eq!(overlay.messages[0].role, "user");
    assert_eq!(overlay.messages[0].content, "hello");
}

#[test]
fn backspace_undoes_a_typed_key() {
    let mut overlay = AgentOverlay::new();
    overlay.push_message("user", "hi");
    typed(&mut overlay, "a\u{e9}b");
    overlay.handle_event(&press(KeyCode::Left), 0, true);
    assert_eq!((overlay.input.text().as_str(), overlay.input.cursor), ("a\u{e9}b", 3));
    typed(&mut overlay, "\u{20ac}");
    assert_eq!((overlay.input.text().as_str(), overlay.input.cursor), ("a\u{e9}\u{20ac}b", 6));
    let answer = overlay.handle_event(&press(KeyCode::Backspace), 0, true);
    assert!(matches!(answer, ChatAction::Consumed));
    assert_eq!((overlay.input.text().as_str(), overlay.input.cursor), ("a\u{e9}b", 3));
    assert_eq!(overlay.messages.len(), 1);
    assert_eq!(overlay.scroll_offset, 0);
    assert!(!overlay.loading);
}

#[test]
fn nothing_is_sent_while_an_answer_is_awaited() {
    let mut overlay = AgentOverlay::new();
    typed(&mut overlay, "hello");
    overlay.set_loading(true);
    assert!(matches!(
        overlay.handle_event(&press(KeyCode::Enter), 0, true),
        ChatAction::Consumed
    ));
    assert!(overlay.messages.is_empty());
}

#[test]
fn context_is_sent_once() {
    let mut overlay =
        AgentOverlay::new().with_context("fn f() {}".to_string(), "src/main.rs:1-2".to_string());
    typed(&mut overlay, "why?");
    match overlay.handle_event(&press(KeyCode::Enter), 0, true) {
        ChatAction::Send { message, .. } => {
            assert!(message.contains("fn f() {}"));
            assert!(message.contains("src/main.rs:1-2"));
            assert!(message.ends_with("why?"));
        }
        _ => panic!("expected a message"),
    }
    assert_eq!(overlay.context_code, None);
    assert_eq!(overlay.context_info, None);
}

#[test]
fn escape_closes_the_overlay() {
    let mut overlay = AgentOverlay::new();
    assert!(matches!(overlay.handle_event(&press(KeyCode::Esc), 0, true), ChatAction::Close));
    assert!(matches!(overlay.handle_event(&Event::Resize, 0, true), ChatAction::Ignored));
}

#[test]
fn answers_grow_in_one_message() {
    let mut overlay = AgentOverlay::new();
    overlay.push_message("user", "hi");
    overlay.apply(OverlayUpdate::Append("Hel".to_string()));
    overlay.apply(OverlayUpdate::Append("lo".to_string()));
    assert_eq!(overlay.messages.len(), 2);
    assert_eq!(overlay.messages[1].role, "assistant");
    assert_eq!(overlay.messages[1].content, "Hello");
    overlay.set_loading(true);
    overlay.apply(OverlayUpdate::Complete { session_id: "s1".to_string() });
    assert!(!overlay.loading);
    assert_eq!(overlay.session_id, Some("s1".to_string()));
}

#[test]
fn failures_are_shown() {
    let mut overlay = AgentOverlay::new();
    overlay.set_loading(true);
    overlay.apply(OverlayUpdate::Fail("no server".to_string()));
    assert!(!overlay.loading);
    assert_eq!(overlay.messages.len(), 1);
    assert!(overlay.messages[0].content.contains("no server"));
    overlay.apply(OverlayUpdate::Note("Auto-approved: a.rs".to_string()));
    assert_eq!(overlay.messages[1].role, "system");
}

#[test]
fn messages_take_lines() {
    let mut overlay = AgentOverlay::new();
    overlay.push_message("user", "one\ntwo");
    overlay.push_message("assistant", "**bold**");
    overlay.recompute_display_lines(40, &ChatStyles::new(&theme()));
    assert_eq!(overlay.total_output_lines(), overlay.display_lines.len());
    assert!(matches!(overlay.display_lines[0], DisplayLine::RoleHeader { .. }));
    assert!(overlay.display_lines.iter().any(|l| matches!(l, DisplayLine::BlankLine)));
}

#[test]
fn overlay_is_drawn_the_same_twice() {
    let mut overlay = AgentOverlay::new();
    overlay.push_message("user", "hello there");
    let area = Rect { x: 0, y: 0, width: 60, height: 20 };
    let first = overlay.render(area, &theme(), 0);
    let second = overlay.render(area, &theme(), 0);
    assert_eq!(first.ops, second.ops);
    assert!(first.ops.iter().any(|op| match op {
        DrawOp::Text { text, .. } => text.contains("hello there"),
        _ => false,
    }));
    let tiny = Rect { x: 0, y: 0, width: 1, height: 1 };
    assert!(overlay.render(tiny, &theme(), 0).ops.is_empty());
    assert_eq!(overlay.required_size((80, 24)), None);
}

#[test]
fn exchange_streams_an_answer() {
    let (mut exchange, action) = Exchange::new("hi".to_string(), None, None);
    assert!(matches!(action, StreamAction::CreateSession));
    let action = exchange.step(StreamEvent::SessionCreated("s1".to_string()));
    assert!(matches!(action, StreamAction::OpenStream));
    match exchange.step(StreamEvent::StreamOpened) {
        StreamAction::SendAsync { session_id, request } => {
            assert_eq!(session_id, "s1");
            assert_eq!(request.parts, vec![MessagePart::Text { text: "hi".to_string() }]);
        }
        _ => panic!("expected a message"),
    }
    assert!(matches!(exchange.step(StreamEvent::Sent), StreamAction::Receive));
    let delta = |session: &str, text: &str| {
        StreamEvent::Received(Incoming::Delta(PartDeltaProperties {
            session_id: session.to_string(),
            message_id: "m".to_string(),
            field: "text".to_string(),
            delta: text.to_string(),
        }))
    };
    assert!(matches!(exchange.step(delta("other", "x")), StreamAction::Receive));
    match exchange.step(delta("s1", "hello")) {
        StreamAction::Update(OverlayUpdate::Append(text)) => assert_eq!(text, "hello"),
        _ => panic!("expected text"),
    }
    assert!(matches!(exchange.step(StreamEvent::Updated { found: true }), StreamAction::Receive));
}

#[test]
fn exchange_ends_without_a_session() {
    let (mut exchange, _) = Exchange::new("hi".to_string(), None, None);
    match exchange.step(StreamEvent::SessionFailed("down".to_string())) {
        StreamAction::Finish(OverlayUpdate::Fail(message)) => assert!(message.contains("down")),
        _ => panic!("expected the end"),
    }
}

#[test]
fn kinds_of_events() {
    assert_eq!(event_kind("message.part.delta"), EventKind::PartDelta);
    assert_eq!(event_kind("session.status"), EventKind::SessionStatus);
    assert_eq!(event_kind("permission.asked"), EventKind::PermissionAsked);
    assert_eq!(event_kind("server.connected"), EventKind::Other);
    match read_status("{\"sessionID\":\"s1\",\"status\":{\"type\":\"idle\"}}") {
        Incoming::Status { session_id, status } => {
            assert_eq!(session_id, Some("s1".to_string()));
            assert_eq!(status, Some("idle".to_string()));
        }
        _ => panic!("expected a status"),
    }
}

#[test]
fn permission_modes() {
    let plan = plan_permission(PermissionMode::AutoApprove, "a.rs", 0);
    assert_eq!(plan.reply, Some("once".to_string()));
    assert_eq!(plan.note, "Auto-approved: a.rs");
    let plan = plan_permission(PermissionMode::AutoReject, "a.rs", 0);
    assert_eq!(plan.reply, Some("reject".to_string()));
    assert_eq!(plan.status, Some("Auto-rejected: a.rs".to_string()));
    let plan = plan_permission(PermissionMode::Ask, "a.rs", 0);
    assert!(plan.enqueue);
    assert_eq!(plan.reply, None);
    assert!(plan.note.contains("a.rs"));
}

#[test]
fn edits_are_approved_and_rejected() {
    let reply = |c: char| match review().handle_event(&key(c)) {
        ReviewAction::Reply { reply, message, always, .. } => (reply, message, always),
        _ => panic!("expected a reply"),
    };
    assert_eq!(reply('a'), ("once".to_string(), None, false));
    assert_eq!(reply('x'), ("reject".to_string(), None, false));
    assert_eq!(reply('A'), ("always".to_string(), None, true));
    assert!(matches!(review().handle_event(&press(KeyCode::Esc)), ReviewAction::Defer));
}

#[test]
fn feedback_is_sent() {
    let mut view = review();
    assert!(matches!(view.handle_event(&key('X')), ReviewAction::Consumed));
    assert!(view.feedback_mode);
    for c in "a no".chars() {
        assert!(matches!(view.handle_event(&key(c)), ReviewAction::Consumed));
    }
    match view.handle_event(&press(KeyCode::Enter)) {
        ReviewAction::Reply { reply, message, .. } => {
            assert_eq!(reply, "reject");
            assert_eq!(message, Some("a no".to_string()));
        }
        _ => panic!("expected a reply"),
    }
}

#[test]
fn cancelled_feedback_is_forgotten() {
    let mut view = review();
    view.handle_event(&key('X'));
    view.handle_event(&key('n'));
    view.handle_event(&press(KeyCode::Esc));
    assert!(!view.feedback_mode);
    assert!(view.feedback.is_empty());
}

#[test]
fn review_counts_changes() {
    let view = review();
    assert_eq!((view.additions, view.deletions), (1, 1));
    assert_eq!(view.file_path, "src/lib.rs");
    assert_eq!(view.max_scroll(3), 1);
    assert_eq!(view.max_scroll(10), 0);
    assert_eq!(pair_candidates(&view.diff_lines), vec![2]);
}

#[test]
fn review_is_drawn() {
    let view = review().with_from_overlay();
    let pairs = vec![WordPair {
        index: 2,
        old: vec![WordSegment { text: "old".to_string(), is_emph: true }],
        new: vec![WordSegment { text: "new".to_string(), is_emph: true }],
    }];
    let area = Rect { x: 0, y: 0, width: 60, height: 20 };
    let ops = view.render(&pairs, area, &theme()).ops;
    assert!(ops.iter().any(|op| match op {
        DrawOp::Frame { title: Some(t), .. } => t == " Agent Edit: src/lib.rs ",
        _ => false,
    }));
    assert!(ops.iter().any(|op| match op {
        DrawOp::Text { text, .. } => text == "+1 -1 (1/2)",
        _ => false,
    }));
    assert!(ops.iter().any(|op| match op {
        DrawOp::Text { x, text, .. } => *x == 15 && text == "old",
        _ => false,
    }));
    assert!(ops.iter().any(|op| match op {
        DrawOp::Text { text, .. } => text.ends_with("[Esc] back to chat"),
        _ => false,
    }));
    assert_eq!(view.cursor(area), None);
}

#[test]
fn diff_text_in_lines() {
    let (lines, additions, deletions) =
        PermissionDiffView::parse_diff_lines("@@ -1 +1 @@\n a\n-b\n+c\n+d\n");
    assert_eq!((additions, deletions), (2, 1));
    assert_eq!(lines.len(), 5);
    assert!(matches!(lines[0], PermDiffLine::Header(_)));
    assert!(matches!(lines[4], PermDiffLine::Addition(_)));
}

#[test]
fn proposed_edits() {
    let metadata = "{\"diff\":\"@@ -1,2 +1,2 @@\\n a\\n-b\\n+c\\n\"}";
    let (before, after, hunks) = proposed_edit(&request(metadata)).unwrap();
    assert_eq!(before.to_string().trim_end(), "a\nb");
    assert_eq!(after.to_string().trim_end(), "a\nc");
    assert_eq!(hunks.len(), 1);
    assert_eq!(hunks[0].before, 1..2);
    assert_eq!(hunks[0].after, 1..2);
}

#[test]
fn words_for_the_status_line() {
    assert!(deferred_status(3).contains('3'));
    assert!(reply_failure("boom").contains("boom"));
}

#[test]
fn small_review_fits_anywhere() {
    let mut view = review();
    view.feedback_mode = true;
    let far = Rect { x: u16::MAX - 5, y: 0, width: 5, height: 20 };
    let near = Rect { x: 0, y: 0, width: 5, height: 20 };
    let ops = view.render(&Vec::new(), far, &theme()).ops;
    assert_eq!(ops.len(), view.render(&Vec::new(), near, &theme()).ops.len());
}
