use victauri::authz::{action_capability, canonical_capability, is_compound_tool, COMPOUND_TOOLS};

fn v(text: &str) -> serde_json::Value {
    serde_json::from_str(text).unwrap()
}

#[test]
fn every_compound_tool_is_recognized() {
    for t in COMPOUND_TOOLS {
        assert!(is_compound_tool(t), "{t} should be compound");
    }
    assert!(!is_compound_tool("eval_js"));
    assert!(!is_compound_tool("invoke_command"));
}

#[test]
fn standalone_tools_use_bare_name() {
    assert_eq!(canonical_capability("eval_js", &v("{}")), "eval_js");
    assert_eq!(
        canonical_capability("invoke_command", &v(r#"{"command": "x"}"#)),
        "invoke_command"
    );
    // A stray `action` on a standalone tool is ignored.
    assert_eq!(
        canonical_capability("screenshot", &v(r#"{"action": "evil"}"#)),
        "screenshot"
    );
}

#[test]
fn compound_resolves_to_dotted_identity() {
    assert_eq!(
        canonical_capability("window", &v(r#"{"action": "manage"}"#)),
        "window.manage"
    );
    assert_eq!(
        canonical_capability("route", &v(r#"{"action": "clear"}"#)),
        "route.clear"
    );
    assert_eq!(
        canonical_capability("route", &v(r#"{"action": "clear_all"}"#)),
        "route.clear_all"
    );
    assert_eq!(
        canonical_capability("logs", &v(r#"{"action": "clear"}"#)),
        "logs.clear"
    );
    assert_eq!(
        canonical_capability("recording", &v(r#"{"action": "replay"}"#)),
        "recording.replay"
    );
}

#[test]
fn inspect_action_names_map_to_matrix_ids() {
    assert_eq!(
        canonical_capability("inspect", &v(r#"{"action": "get_styles"}"#)),
        "inspect.styles"
    );
    assert_eq!(
        canonical_capability("inspect", &v(r#"{"action": "get_bounding_boxes"}"#)),
        "inspect.bounds"
    );
    assert_eq!(
        canonical_capability("inspect", &v(r#"{"action": "audit_accessibility"}"#)),
        "inspect.audit_a11y"
    );
    assert_eq!(
        canonical_capability("inspect", &v(r#"{"action": "get_performance"}"#)),
        "inspect.performance"
    );
}

#[test]
fn missing_or_unknown_action_fails_closed_to_bare_name() {
    assert_eq!(canonical_capability("route", &v("{}")), "route");
    assert_eq!(
        canonical_capability("route", &v(r#"{"action": "nonsense"}"#)),
        "route"
    );
}

#[test]
fn action_capability_is_none_for_unknown_pairs() {
    assert_eq!(action_capability("route", "nonsense"), None);
    assert_eq!(action_capability("eval_js", "anything"), None);
    assert_eq!(action_capability("window", "manage").as_deref(), Some("window.manage"));
}

#[test]
fn non_string_action_fails_closed() {
    assert_eq!(canonical_capability("route", &v(r#"{"action": 7}"#)), "route");
}

#[test]
fn only_the_action_field_decides_the_identity() {
    assert_eq!(
        canonical_capability("window", &v(r#"{"id": "manage"}"#)),
        "window"
    );
    assert_eq!(
        canonical_capability("window", &v(r#"{"action": 3}"#)),
        "window"
    );
    assert_eq!(
        canonical_capability("window", &v(r#"{"id": "x", "action": "manage"}"#)),
        "window.manage"
    );
}
