use app_proxy::compile::ProxyGroupEntry;
use app_proxy::launch::{
    elevated_parameters, helper_api, helper_config, helper_token, temporary_suffix, token_file_name,
    unix_exit_code, windows_exit_code, STILL_ACTIVE,
};

fn id_chars(s: &str) -> bool {
    s.chars().all(|c| c.is_ascii_alphanumeric() || c == '_' || c == '-')
}

#[test]
fn helper_api_endpoint() {
    assert_eq!(helper_api(), "http://127.0.0.1:18080");
}

#[test]
fn tokens_start_with_the_process_id() {
    let token = helper_token(4321);
    assert!(token.starts_with("4321"));
    assert_eq!(token.len(), 4 + 48);
    assert!(id_chars(&token[4..]));
    assert_ne!(helper_token(4321), token);
}

#[test]
fn credential_and_temporary_file_names() {
    let name = token_file_name();
    assert!(name.starts_with("helper-") && name.ends_with(".token"));
    assert_eq!(name.len(), "helper-".len() + 16 + ".token".len());
    assert!(id_chars(&name["helper-".len()..name.len() - ".token".len()]));
    let suffix = temporary_suffix();
    assert!(suffix.ends_with(".tmp"));
    assert_eq!(suffix.len(), 12 + 4);
}

#[test]
fn elevated_launch_parameters_quote_both_paths() {
    let line = elevated_parameters(&"C:\\a b\\t.token".to_string(), &"C:\\a b\\clew.json".to_string());
    assert_eq!(line, "--headless --token-file \"C:\\a b\\t.token\" --config \"C:\\a b\\clew.json\"");
}

#[test]
fn helper_configuration_uses_the_first_group_as_default() {
    let groups = vec![
        ProxyGroupEntry { id: 0, name: "regular".into(), host: "127.0.0.1".into(), port: 7001 },
        ProxyGroupEntry { id: 1, name: "G".into(), host: "127.0.0.1".into(), port: 7002 },
    ];
    let config = helper_config(groups);
    assert_eq!(config.version, 2);
    assert_eq!((config.default_proxy_host.as_str(), config.default_proxy_port), ("127.0.0.1", 7001));
    assert_eq!(config.next_group_id, 2);
    assert_eq!(config.proxy_groups[1].name, "G");
    assert_eq!(config.default_exclude_cidrs, vec!["127.0.0.0/8", "10.0.0.0/8", "172.16.0.0/12", "192.168.0.0/16"]);
    assert_eq!((config.io_threads, config.log_level.as_str(), config.dns_enabled), (2, "info", false));
    assert!(config.syn_parking_enabled);
    assert_eq!((config.syn_parking_watchdog_ms, config.syn_parking_pool_size), (20, 256));
}

#[test]
fn exit_codes() {
    assert_eq!(windows_exit_code(STILL_ACTIVE), None);
    assert_eq!(windows_exit_code(0), Some(0));
    assert_eq!(windows_exit_code(1), Some(1));
    assert_eq!(unix_exit_code(Some(3)), 3);
    assert_eq!(unix_exit_code(None), 1);
    assert_eq!(unix_exit_code(Some(-1)), u32::MAX);
}
