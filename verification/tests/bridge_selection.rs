use victauri::bridge::unreachable_message;
use victauri::discovery::{normalize_env_token, select, token_for_port, Selection, ServerInfo};

fn srv(id: &str, name: &str, port: u16) -> ServerInfo {
    ServerInfo {
        port,
        token: None,
        identifier: Some(id.to_string()),
        product_name: Some(name.to_string()),
    }
}

#[test]
fn unreachable_message_is_actionable() {
    let m = unreachable_message();
    // Names the cause and the one-line fix so an agent doesn't fall back to CDP.
    assert!(m.contains("tauri dev"), "must name how to start the app");
    assert!(m.to_lowercase().contains("not reachable") || m.contains("no running"));
}

#[test]
fn selects_sole_server_without_app() {
    let live = vec![srv("com.a.app", "A", 7373)];
    assert!(matches!(select(&live, None), Selection::One(s) if s.port == 7373));
}

#[test]
fn ambiguous_when_multiple_and_no_app() {
    let live = vec![srv("com.a.app", "A", 7373), srv("com.b.app", "B", 7374)];
    assert!(matches!(select(&live, None), Selection::Ambiguous(v) if v.len() == 2));
}

#[test]
fn selects_by_identifier_among_many() {
    let live = vec![srv("com.a.app", "A", 7373), srv("com.4da.app", "4DA", 7374)];
    match select(&live, Some("com.4da.app")) {
        Selection::One(s) => assert_eq!(s.port, 7374),
        _ => panic!("should pick 4DA by identifier"),
    }
}

#[test]
fn selects_by_product_name_case_insensitive() {
    let live = vec![
        srv("com.a.app", "Demo", 7373),
        srv("com.4da.app", "4DA", 7374),
    ];
    match select(&live, Some("4da")) {
        Selection::One(s) => assert_eq!(s.port, 7374),
        _ => panic!("should pick by product name"),
    }
}

#[test]
fn no_match_returns_none() {
    let live = vec![srv("com.a.app", "A", 7373)];
    assert!(matches!(
        select(&live, Some("com.nope.app")),
        Selection::NoMatch
    ));
}

#[test]
fn token_selection_never_crosses_ports() {
    let mut first = srv("com.a.app", "A", 7373);
    first.token = Some("token-a".to_string());
    let mut second = srv("com.b.app", "B", 7374);
    second.token = Some("token-b".to_string());
    let servers = vec![first, second];

    assert_eq!(token_for_port(&servers, 7374).as_deref(), Some("token-b"));
    assert_eq!(token_for_port(&servers, 7999), None);
}

#[test]
fn substring_identifier_match() {
    let live = vec![srv("com.victauri.demo", "Demo", 7373)];
    match select(&live, Some("demo")) {
        Selection::One(s) => assert_eq!(s.port, 7373),
        _ => panic!("substring of product/identifier should match"),
    }
}

#[test]
fn normalize_env_token_treats_blank_as_unset() {
    assert_eq!(normalize_env_token(None), None, "unset -> None");
    assert_eq!(
        normalize_env_token(Some(String::new())),
        None,
        "empty -> None"
    );
    assert_eq!(
        normalize_env_token(Some("   ".to_string())),
        None,
        "spaces -> None"
    );
    assert_eq!(
        normalize_env_token(Some("\t\r\n ".to_string())),
        None,
        "whitespace -> None"
    );
    assert_eq!(
        normalize_env_token(Some("real-token".to_string())).as_deref(),
        Some("real-token"),
        "real token preserved"
    );
    assert_eq!(
        normalize_env_token(Some("  padded  ".to_string())).as_deref(),
        Some("padded"),
        "surrounding whitespace trimmed"
    );
}

#[test]
fn exact_identity_beats_earlier_substring_match() {
    // "demo" is a substring of the first identifier but the exact product name of the second.
    let live = vec![srv("com.demo.tools", "Tools", 7373), srv("com.x.app", "demo", 7374)];
    match select(&live, Some("DEMO")) {
        Selection::One(s) => assert_eq!(s.port, 7374),
        _ => panic!("exact match must win"),
    }
}

#[test]
fn empty_live_set_selects_nothing_even_with_app() {
    let live: Vec<ServerInfo> = Vec::new();
    assert!(matches!(select(&live, Some("anything")), Selection::NoMatch));
    assert!(matches!(select(&live, None), Selection::NoMatch));
}

#[test]
fn ambiguous_lists_labels_in_order() {
    let live = vec![srv("com.a.app", "A", 7373), srv("com.b.app", "B", 7374)];
    match select(&live, None) {
        Selection::Ambiguous(v) => {
            assert_eq!(v, vec!["com.a.app (port 7373)".to_string(), "com.b.app (port 7374)".to_string()]);
        }
        _ => panic!("expected ambiguity"),
    }
}

#[test]
fn label_falls_back_to_product_name_then_unknown() {
    let mut s = srv("com.a.app", "Demo", 7373);
    s.identifier = None;
    assert_eq!(s.label(), "Demo (port 7373)");
    s.product_name = None;
    assert_eq!(s.label(), "<unknown app> (port 7373)");
}

#[test]
fn token_for_port_takes_first_server_on_port() {
    let mut a = srv("com.a.app", "A", 7373);
    a.token = None;
    let mut b = srv("com.b.app", "B", 7373);
    b.token = Some("later".to_string());
    let servers = vec![a, b];
    // The first server on the port has no token; the later one is never consulted.
    assert_eq!(token_for_port(&servers, 7373), None);
}
