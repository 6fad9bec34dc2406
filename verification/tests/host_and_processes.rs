use victauri::discovery::{
    normalize_env_token, parse_port, parse_port_text, pid_from_tasklist_row, pids_from_ps,
    token_from_file,
};
use victauri::host::{host_command, host_port, native_event, HostCommand, NativeEvent, NativeMessage, DEFAULT_PORT};
use victauri::text::decimal_string;

fn args(list: &[&str]) -> Vec<String> {
    list.iter().map(|s| s.to_string()).collect()
}

fn msg(kind: &str) -> NativeMessage {
    NativeMessage { kind: Some(kind.to_string()), id: None, tab_id: None, url: None, title: None, error: None }
}

#[test]
fn ps_output_lists_every_pid() {
    assert_eq!(pids_from_ps("  1\n  42\n 7777 \n"), Some(vec![1, 42, 7777]));
    assert_eq!(pids_from_ps("  PID\n  12\n"), Some(vec![12]));
    assert_eq!(pids_from_ps(" \n\t"), None);
    assert_eq!(pids_from_ps("99999999999 x"), None);
}

#[test]
fn tasklist_rows_give_their_pid() {
    assert_eq!(
        pid_from_tasklist_row(r#""explorer.exe","4242","Console","1","80,000 K""#),
        Some(4242)
    );
    assert_eq!(pid_from_tasklist_row(r#""System Idle Process","0","Services","0","8 K""#), Some(0));
    assert_eq!(pid_from_tasklist_row("no separators here"), None);
    assert_eq!(pid_from_tasklist_row(r#""a","x1","b""#), None);
    assert_eq!(pid_from_tasklist_row(r#""a"," 17 "#), Some(17));
}

#[test]
fn ports_parse_like_str_parse() {
    assert_eq!(parse_port("7373"), Some(7373));
    assert_eq!(parse_port("+80"), Some(80));
    assert_eq!(parse_port(" 80"), None);
    assert_eq!(parse_port("65536"), None);
    assert_eq!(parse_port_text(" 7373\n"), Some(7373));
}

#[test]
fn written_port_reads_back() {
    for port in [0u16, 7, 80, 7373, 65535] {
        assert_eq!(parse_port_text(&decimal_string(u64::from(port))), Some(port));
    }
}

#[test]
fn tokens_read_back_trimmed_and_normalize_once() {
    assert_eq!(token_from_file(Some("abc\n".to_string())).as_deref(), Some("abc"));
    assert_eq!(token_from_file(Some("  \n".to_string())), None);
    assert_eq!(token_from_file(None), None);
    let once = normalize_env_token(Some("  t  ".to_string()));
    assert_eq!(normalize_env_token(once.clone()), once);
}

#[test]
fn host_commands() {
    assert_eq!(host_command(&args(&["host"])), HostCommand::Serve);
    assert_eq!(host_command(&args(&["host", "serve"])), HostCommand::Serve);
    assert_eq!(host_command(&args(&["host", "other"])), HostCommand::Serve);
    assert_eq!(host_command(&args(&["host", "uninstall"])), HostCommand::Uninstall);
    assert_eq!(host_command(&args(&["host", "version"])), HostCommand::Version);
    assert_eq!(
        host_command(&args(&["host", "install", "abcdef"])),
        HostCommand::Install { extension_id: "abcdef".to_string() }
    );
    assert_eq!(
        host_command(&args(&["host", "install"])),
        HostCommand::Install { extension_id: "EXTENSION_ID".to_string() }
    );
}

#[test]
fn host_ports() {
    assert_eq!(host_port(None), DEFAULT_PORT);
    assert_eq!(host_port(Some("9000")), 9000);
    assert_eq!(host_port(Some("not-a-port")), 7474);
}

#[test]
fn native_messages() {
    let mut m = msg("response");
    m.id = Some("req-1".to_string());
    m.error = Some("boom".to_string());
    assert_eq!(
        native_event(m),
        NativeEvent::Response { id: "req-1".to_string(), error: Some("boom".to_string()) }
    );
    assert_eq!(native_event(msg("response")), NativeEvent::Response { id: String::new(), error: None });

    let mut m = msg("tab_created");
    m.tab_id = Some(5);
    m.url = Some("https://a".to_string());
    assert_eq!(native_event(m.clone()), NativeEvent::Incomplete);
    m.title = Some("A".to_string());
    assert_eq!(
        native_event(m),
        NativeEvent::TabCreated { tab_id: 5, url: "https://a".to_string(), title: "A".to_string() }
    );

    let mut m = msg("tab_closed");
    m.tab_id = Some((1u64 << 32) + 3);
    assert_eq!(native_event(m), NativeEvent::TabClosed { tab_id: 3 });

    let mut m = msg("tab_updated");
    m.tab_id = Some(9);
    m.title = Some("T".to_string());
    assert_eq!(
        native_event(m),
        NativeEvent::TabUpdated { tab_id: 9, url: None, title: Some("T".to_string()) }
    );

    let mut m = msg("bridge_ready");
    assert_eq!(native_event(m.clone()), NativeEvent::Incomplete);
    m.tab_id = Some(2);
    assert_eq!(native_event(m), NativeEvent::BridgeReady { tab_id: 2 });

    let mut m = msg("tab_activated");
    m.tab_id = Some(4);
    assert_eq!(native_event(m), NativeEvent::TabActivated { tab_id: 4 });

    assert_eq!(native_event(msg("something_else")), NativeEvent::Unknown);
    let mut none = msg("x");
    none.kind = None;
    assert_eq!(native_event(none), NativeEvent::Unknown);
}
