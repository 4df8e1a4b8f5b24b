use chat_bridge::config::{default_upstream_url, resolve_config, Args, FileConfig};
use chat_bridge::dispatch::WireApi;

fn empty_args() -> Args {
    Args {
        config: None,
        host: None,
        port: None,
        upstream_url: None,
        upstream_wire: None,
        api_key_env: None,
        server_info: None,
        http_shutdown: false,
        verbose_logging: false,
        drop_tool_types: vec![],
    }
}

#[test]
fn resolve_config_prefers_cli_over_file_and_defaults() {
    let args = Args {
        config: None,
        host: Some("0.0.0.0".to_string()),
        port: Some(9999),
        upstream_url: None,
        upstream_wire: None,
        api_key_env: Some("CLI_API_KEY".to_string()),
        server_info: None,
        http_shutdown: true,
        verbose_logging: false,
        drop_tool_types: vec![],
    };
    let file = FileConfig {
        host: Some("127.0.0.1".to_string()),
        port: Some(8787),
        upstream_url: Some("https://example.com/v1/chat/completions".to_string()),
        upstream_wire: None,
        api_key_env: Some("FILE_API_KEY".to_string()),
        server_info: Some("/tmp/server.json".to_string()),
        http_shutdown: Some(false),
        verbose_logging: Some(true),
        drop_tool_types: None,
    };

    let resolved = resolve_config(args, Some(file));
    assert_eq!(resolved.host, "0.0.0.0");
    assert_eq!(resolved.port, Some(9999));
    assert_eq!(
        resolved.upstream_url,
        "https://example.com/v1/chat/completions"
    );
    assert_eq!(resolved.api_key_env, "CLI_API_KEY");
    assert_eq!(resolved.server_info, Some("/tmp/server.json".to_string()));
    assert!(resolved.http_shutdown);
    assert!(resolved.verbose_logging);
}

#[test]
fn resolve_config_uses_defaults_when_missing() {
    let resolved = resolve_config(empty_args(), None);
    assert_eq!(resolved.host, "127.0.0.1");
    assert_eq!(resolved.port, None);
    assert_eq!(
        resolved.upstream_url,
        "https://api.openai.com/v1/chat/completions"
    );
    assert_eq!(resolved.api_key_env, "OPENAI_API_KEY");
    assert_eq!(resolved.server_info, None);
    assert!(!resolved.http_shutdown);
    assert!(!resolved.verbose_logging);
}

#[test]
fn resolve_config_defaults_upstream_url_by_wire() {
    let mut args = empty_args();
    args.upstream_wire = Some(WireApi::Responses);
    let resolved = resolve_config(args, None);
    assert_eq!(resolved.upstream_wire, WireApi::Responses);
    assert_eq!(resolved.upstream_url, "https://api.openai.com/v1/responses");
}

#[test]
fn resolve_config_merges_and_cleans_drop_tool_types() {
    let mut args = empty_args();
    args.drop_tool_types = vec!["cli_type".to_string(), "  ".to_string()];
    let file = FileConfig {
        host: None,
        port: None,
        upstream_url: None,
        upstream_wire: None,
        api_key_env: None,
        server_info: None,
        http_shutdown: None,
        verbose_logging: None,
        drop_tool_types: Some(vec!["file_type".to_string(), "".to_string()]),
    };
    let resolved = resolve_config(args, Some(file));
    assert_eq!(
        resolved.drop_tool_types,
        vec!["file_type".to_string(), "cli_type".to_string()]
    );
}

#[test]
fn default_upstream_url_follows_wire() {
    assert_eq!(
        default_upstream_url(WireApi::Chat),
        "https://api.openai.com/v1/chat/completions"
    );
    assert_eq!(
        default_upstream_url(WireApi::Responses),
        "https://api.openai.com/v1/responses"
    );
}

#[test]
fn server_info_line_is_one_json_line() {
    let line = chat_bridge::config::server_info_line(8787, 4242);
    assert_eq!(line, "{\"port\":8787,\"pid\":4242}\n");
}
