use victauri::discovery::{
    dir_is_trusted, identity_from_metadata, parse_pid, scan_discovery_dirs_for_port, scan_discovery_dirs_for_token,
    token_from_file, DiscoveredServer,
};

fn server(port: u16, token: Option<&str>) -> DiscoveredServer {
    DiscoveredServer { port, token: token.map(String::from) }
}

#[test]
fn trusted_dirs_are_owned_private_directories() {
    assert!(dir_is_trusted(true, 1000, Some(1000), 0o700));
    assert!(dir_is_trusted(true, 1000, Some(1000), 0o755));
    assert!(!dir_is_trusted(true, 1000, Some(1000), 0o777), "world-writable");
    assert!(!dir_is_trusted(true, 1000, Some(1000), 0o720), "group-writable");
    assert!(!dir_is_trusted(false, 1000, Some(1000), 0o700), "symlink or file");
    assert!(!dir_is_trusted(true, 0, Some(1000), 0o700), "someone else's");
    assert!(!dir_is_trusted(true, 1000, None, 0o700), "unknown user");
}

#[test]
fn only_a_single_live_server_is_chosen() {
    assert_eq!(scan_discovery_dirs_for_port(&[]), None);
    assert_eq!(scan_discovery_dirs_for_port(&[server(7373, None)]), Some(7373));
    assert_eq!(
        scan_discovery_dirs_for_port(&[server(7373, None), server(7374, None)]),
        None
    );
    assert_eq!(
        scan_discovery_dirs_for_token(&[server(7373, Some("t"))]).as_deref(),
        Some("t")
    );
    assert_eq!(scan_discovery_dirs_for_token(&[server(7373, None)]), None);
    assert_eq!(
        scan_discovery_dirs_for_token(&[server(1, Some("a")), server(2, Some("b"))]),
        None
    );
}

#[test]
fn pid_directory_names() {
    assert_eq!(parse_pid("4242"), Some(4242));
    assert_eq!(parse_pid("4294967295"), Some(u32::MAX));
    assert_eq!(parse_pid("4294967296"), None);
    assert_eq!(parse_pid("12a"), None);
    assert_eq!(parse_pid(""), None);
    assert_eq!(parse_pid("-1"), None);
}

#[test]
fn metadata_identity() {
    let text = r#"{"pid": 1, "identifier": "com.a.app", "product_name": "A"}"#.to_string();
    assert_eq!(
        identity_from_metadata(Some(text)),
        (Some("com.a.app".to_string()), Some("A".to_string()))
    );
    let partial = r#"{"identifier": 5, "product_name": "B"}"#.to_string();
    assert_eq!(identity_from_metadata(Some(partial)), (None, Some("B".to_string())));
    assert_eq!(identity_from_metadata(Some("not json".to_string())), (None, None));
    assert_eq!(identity_from_metadata(None), (None, None));
}

#[test]
fn single_server_token_read_from_file_is_trimmed() {
    let read = DiscoveredServer { port: 7373, token: token_from_file(Some("  secret-t \n".to_string())) };
    assert_eq!(scan_discovery_dirs_for_token(&[read]).as_deref(), Some("secret-t"));
    let blank = DiscoveredServer { port: 7373, token: token_from_file(Some(" \t\n".to_string())) };
    assert_eq!(scan_discovery_dirs_for_token(&[blank]), None);
}
