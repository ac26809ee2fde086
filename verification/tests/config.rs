use std::path::PathBuf;

use ai_proxy::config::{
    backend_binary_name, backend_status, format_config_yaml, BACKEND_BINARY_NAME,
    BACKEND_DIR_NAME,
};

#[test]
fn fallback_path_has_expected_shape() {
    let resolved = PathBuf::from(BACKEND_DIR_NAME).join(BACKEND_BINARY_NAME);
    assert!(resolved.ends_with(BACKEND_BINARY_NAME));
    assert!(resolved.to_string_lossy().contains(BACKEND_DIR_NAME));
}

#[test]
fn config_yaml_format() {
    let yaml = format_config_yaml(8080, "/home/user/.cli-proxy-api", "round_robin");
    assert!(yaml.contains("port: 8080"));
    assert!(yaml.contains("auth-dir: '/home/user/.cli-proxy-api'"));
    assert!(yaml.contains("strategy: 'round_robin'"));
    assert!(yaml.contains("host: '127.0.0.1'"));
    assert!(yaml.contains("remote-management:"));
    assert!(yaml.contains("secret-key:"));
}

#[test]
fn config_yaml_in_full() {
    assert_eq!(
        format_config_yaml(65535, "/d", "fill_first"),
        "host: '127.0.0.1'\nport: 65535\nauth-dir: '/d'\nrouting:\n  strategy: 'fill_first'\nremote-management:\n  secret-key: 'jean-local-management-key'\n"
    );
    assert_ne!(
        format_config_yaml(1, "/d", "s"),
        format_config_yaml(11, "/d", "s")
    );
}

#[test]
fn binary_name_depends_on_the_platform() {
    assert_eq!(backend_binary_name(false), "cli-proxy-api-plus");
    assert_eq!(backend_binary_name(true), "cli-proxy-api-plus.exe");
}

#[test]
fn a_missing_backend_has_no_path() {
    let there = backend_status("/x/y".to_string(), true);
    assert!(there.installed);
    assert_eq!(there.path.as_deref(), Some("/x/y"));
    let gone = backend_status("/x/y".to_string(), false);
    assert!(!gone.installed);
    assert!(gone.path.is_none());
}
