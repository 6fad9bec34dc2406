use victauri::bridge::{
    after_handshake, ambiguous_forward_message, announce_list_changed, classify_response, discover_step,
    empty_list_result_key, forward_step, join_labels, needs_handshake, negotiated_protocol_version,
    reply_when_unreachable, route_message, DiscoverStep, ForwardStep, Payloads, PostEvent, Route,
    SessionState, MAX_RETRIES, RETRY_DELAY_MS,
};
use victauri::discovery::{Selection, ServerInfo};

fn fresh() -> SessionState {
    SessionState { session_id: None, stateless: false }
}

fn responded(sid: Option<&str>, stale: bool, accepted: bool) -> PostEvent {
    PostEvent::Responded { session_id: sid.map(String::from), stale, accepted }
}

#[test]
fn initialize_echoes_requested_protocol_or_defaults() {
    assert_eq!(negotiated_protocol_version(Some("2025-03-26")), "2025-03-26");
    assert_eq!(negotiated_protocol_version(None), "2025-06-18");
}

#[test]
fn empty_list_keys() {
    assert_eq!(empty_list_result_key("resources/list"), "resources");
    assert_eq!(empty_list_result_key("resources/templates/list"), "resourceTemplates");
    assert_eq!(empty_list_result_key("prompts/list"), "prompts");
    assert_eq!(empty_list_result_key("other/list"), "items");
}

#[test]
fn routes() {
    assert_eq!(route_message("initialize"), Route::Initialize);
    assert_eq!(route_message("notifications/initialized"), Route::InitializedAck);
    assert_eq!(route_message("ping"), Route::Ping);
    assert_eq!(route_message("tools/list"), Route::ToolsList);
    assert_eq!(route_message("resources/list"), Route::EmptyWhenDown);
    assert_eq!(route_message("resources/templates/list"), Route::EmptyWhenDown);
    assert_eq!(route_message("prompts/list"), Route::EmptyWhenDown);
    assert_eq!(route_message("tools/call"), Route::Forward);
    assert_eq!(route_message(""), Route::Forward);
}

#[test]
fn unreachable_requests_get_errors_notifications_do_not() {
    assert!(reply_when_unreachable(false));
    assert!(!reply_when_unreachable(true));
}

#[test]
fn list_changed_only_on_down_to_up() {
    assert!(announce_list_changed(false, true));
    assert!(!announce_list_changed(true, true));
    assert!(!announce_list_changed(true, false));
    assert!(!announce_list_changed(false, false));
}

#[test]
fn handshake_needed_only_for_stateful_backends_without_session() {
    assert!(needs_handshake(&fresh()));
    assert!(!needs_handshake(&SessionState { session_id: Some("s".into()), stateless: false }));
    assert!(!needs_handshake(&SessionState { session_id: None, stateless: true }));
}

#[test]
fn handshake_outcomes() {
    let s = after_handshake(fresh(), Some("abc".into()), false);
    assert_eq!(s, SessionState { session_id: Some("abc".into()), stateless: false });
    // No session id and not stale: the backend is stateless.
    let s = after_handshake(fresh(), None, false);
    assert_eq!(s, SessionState { session_id: None, stateless: true });
    // A stale answer changes nothing.
    assert_eq!(after_handshake(fresh(), None, true), fresh());
}

#[test]
fn responses_are_relayed_with_the_new_session() {
    let (s, step) = forward_step(0, false, fresh(), responded(Some("n"), false, false));
    assert_eq!(step, ForwardStep::Relay);
    assert_eq!(s.session_id.as_deref(), Some("n"));
    let keep = SessionState { session_id: Some("old".into()), stateless: false };
    let (s, _) = forward_step(0, false, keep, responded(None, false, false));
    assert_eq!(s.session_id.as_deref(), Some("old"));
}

#[test]
fn accepted_notifications_relay_nothing() {
    let (_, step) = forward_step(0, true, fresh(), responded(None, false, true));
    assert_eq!(step, ForwardStep::Accepted);
    // A request that got 202 is still relayed (with whatever payloads it has).
    let (_, step) = forward_step(0, false, fresh(), responded(None, false, true));
    assert_eq!(step, ForwardStep::Relay);
}

#[test]
fn stale_sessions_retry_with_fixed_delay_then_give_up() {
    let with_sid = SessionState { session_id: Some("s".into()), stateless: false };
    let (s, step) = forward_step(0, false, with_sid.clone(), responded(Some("x"), true, false));
    assert_eq!(s.session_id, None);
    assert_eq!(step, ForwardStep::Retry { delay_ms: RETRY_DELAY_MS, drop_connection: false });
    let (_, step) = forward_step(MAX_RETRIES - 1, false, with_sid, responded(None, true, false));
    assert_eq!(step, ForwardStep::GiveUp);
}

#[test]
fn failures_back_off_linearly() {
    let delays: Vec<ForwardStep> = (0..MAX_RETRIES)
        .map(|a| forward_step(a, false, fresh(), PostEvent::Failed).1)
        .collect();
    assert_eq!(
        delays,
        vec![
            ForwardStep::Retry { delay_ms: 400, drop_connection: true },
            ForwardStep::Retry { delay_ms: 800, drop_connection: true },
            ForwardStep::Retry { delay_ms: 1200, drop_connection: true },
            ForwardStep::GiveUp,
        ]
    );
}

#[test]
fn classify_stale_and_accepted() {
    for status in [404u16, 409, 422] {
        let o = classify_response(status, "application/json", "{}");
        assert!(o.stale_session && !o.accepted);
        assert_eq!(o.payloads, Payloads::Nothing);
    }
    let o = classify_response(202, "", "");
    assert!(o.accepted && !o.stale_session);
    assert_eq!(o.payloads, Payloads::Nothing);
}

#[test]
fn classify_error_status() {
    let o = classify_response(500, "text/plain", "oops");
    assert_eq!(o.payloads, Payloads::Error("Victauri returned 500: oops".to_string()));
}

#[test]
fn classify_event_stream() {
    let body = "event: message\ndata: {\"id\":1}\r\ndata:   \ndata: not json\ndata:  [2] \n";
    let o = classify_response(200, "text/event-stream; charset=utf-8", body);
    assert_eq!(
        o.payloads,
        Payloads::Lines(vec!["{\"id\":1}".to_string(), "[2]".to_string()])
    );
}

#[test]
fn classify_plain_body() {
    let o = classify_response(200, "application/json", "  {\"a\":1}\n");
    assert_eq!(o.payloads, Payloads::Lines(vec!["{\"a\":1}".to_string()]));
    let o = classify_response(200, "application/json", " \n ");
    assert_eq!(o.payloads, Payloads::Lines(vec![]));
}

fn srv(id: &str, port: u16) -> ServerInfo {
    ServerInfo { port, token: None, identifier: Some(id.to_string()), product_name: None }
}

#[test]
fn discovery_steps() {
    let one = Selection::One(srv("a", 1));
    assert_eq!(discover_step(false, 0, &one), DiscoverStep::Connected);
    assert_eq!(discover_step(false, 0, &Selection::NoMatch), DiscoverStep::Wait);
    assert_eq!(discover_step(false, 1, &Selection::NoMatch), DiscoverStep::Wait);
    match discover_step(false, 2, &Selection::NoMatch) {
        DiscoverStep::Fail(m) => assert!(m.starts_with("Could not connect to Victauri server.")),
        other => panic!("expected failure, got {other:?}"),
    }
    assert_eq!(discover_step(true, 28, &Selection::NoMatch), DiscoverStep::Wait);
    assert!(matches!(discover_step(true, 29, &Selection::NoMatch), DiscoverStep::Fail(_)));
    let amb = Selection::Ambiguous(vec!["a (port 1)".to_string(), "b (port 2)".to_string()]);
    match discover_step(false, 0, &amb) {
        DiscoverStep::Fail(m) => assert!(m.starts_with("Multiple Victauri apps are running:\n  a (port 1)\n  b (port 2)\n")),
        other => panic!("expected failure, got {other:?}"),
    }
}

#[test]
fn ambiguity_messages_list_every_app() {
    let labels = vec!["a (port 1)".to_string(), "b (port 2)".to_string()];
    assert_eq!(join_labels(&labels, ", "), "a (port 1), b (port 2)");
    assert_eq!(
        ambiguous_forward_message(&labels),
        "Multiple Victauri apps are running:\n  a (port 1)\n  b (port 2)\nSelect one with `--app <bundle-identifier>` or the VICTAURI_APP env var."
    );
}
