use mcp_sync::config::{parse_canonical_str, CanonicalConfig};
use mcp_sync::json_text::{parse_json_text, pretty_json};
use mcp_sync::json::Json;
use serde_json::Value;

fn parse_json(text: &str) -> Json {
    parse_json_text(text).unwrap()
}

fn from_json(j: &Json) -> Value {
    serde_json::from_str(&pretty_json(j).unwrap()).unwrap()
}

fn env_get<'a>(env: &'a [(String, String)], key: &str) -> Option<&'a str> {
    env.iter().find(|(k, _)| k == key).map(|(_, v)| v.as_str())
}

#[test]
fn test_parse_servers_key() {
    let json = r#"{
        "servers": {
            "test-stdio": {
                "command": "npx",
                "args": ["-y", "test-server"],
                "env": { "TEST_VAR": "val" }
            },
            "test-remote": {
                "url": "https://mcp.example.com/sse"
            }
        }
    }"#;

    let config = parse_canonical_str(json).expect("should parse successfully");
    assert_eq!(config.servers.len(), 2);

    let stdio = config.server("test-stdio").unwrap();
    assert_eq!(stdio.command.as_deref(), Some("npx"));
    assert_eq!(stdio.args.as_ref().unwrap(), &vec!["-y", "test-server"]);
    assert_eq!(env_get(stdio.env.as_ref().unwrap(), "TEST_VAR").unwrap(), "val");
    assert!(!stdio.is_remote());

    let remote = config.server("test-remote").unwrap();
    assert_eq!(remote.get_url(), Some("https://mcp.example.com/sse"));
    assert!(remote.is_remote());
}

#[test]
fn test_parse_mcp_servers_key() {
    let json = r#"{
        "mcpServers": {
            "server-a": {
                "serverUrl": "https://remote.example.com"
            }
        }
    }"#;

    let config = parse_canonical_str(json).expect("should parse mcpServers key");
    assert_eq!(config.servers.len(), 1);
    let s = config.server("server-a").unwrap();
    assert_eq!(s.get_url(), Some("https://remote.example.com"));
}

#[test]
fn test_parse_settings_and_inputs() {
    let json = r#"{
        "servers": {
            "with-settings": {
                "command": "npx",
                "settings": {
                    "api_key": "secret-123"
                }
            }
        },
        "inputs": [
            { "id": "token", "type": "promptString" }
        ]
    }"#;

    let config = parse_canonical_str(json).expect("should parse settings and inputs");
    let s = config.server("with-settings").unwrap();
    assert!(s.settings.is_some());
    let key = s.settings.as_ref().unwrap().get("api_key").unwrap();
    assert!(matches!(key, Json::Str(v) if v == "secret-123"));
    assert!(config.inputs.is_some());
}

#[test]
fn parse_root_must_be_object() {
    assert_eq!(
        parse_canonical_str("[1, 2]").err(),
        Some("Root of config must be a JSON object".to_string())
    );
}

#[test]
fn parse_requires_servers_key() {
    assert_eq!(
        parse_canonical_str(r#"{ "other": {} }"#).err(),
        Some("Config file must contain either \"servers\" or \"mcpServers\"".to_string())
    );
}

#[test]
fn parse_servers_must_be_map() {
    assert_eq!(
        parse_canonical_str(r#"{ "servers": [] }"#).err(),
        Some("Invalid server definitions: expected a map of servers".to_string())
    );
}

#[test]
fn parse_rejects_bad_server() {
    let r = parse_canonical_str(r#"{ "servers": { "bad": { "command": 5 } } }"#);
    assert_eq!(
        r.err(),
        Some("Invalid server definitions: server \"bad\" does not match the server schema".to_string())
    );
}

#[test]
fn parse_prefers_servers_over_mcp_servers() {
    let config = parse_canonical_str(
        r#"{ "servers": { "a": { "command": "x" } }, "mcpServers": { "b": { "command": "y" } } }"#,
    )
    .unwrap();
    assert!(config.server("a").is_some());
    assert!(config.server("b").is_none());
    assert!(config.contains_server("a"));
    assert!(!config.contains_server("b"));
}

#[test]
fn url_wins_over_server_url_and_headers_fall_back() {
    let config = parse_canonical_str(
        r#"{ "servers": { "r": { "url": "https://a", "serverUrl": "https://b", "http_headers": { "K": "V" } } } }"#,
    )
    .unwrap();
    let r = config.server("r").unwrap();
    assert_eq!(r.get_url(), Some("https://a"));
    let h = r.get_headers().unwrap();
    assert_eq!(h, &vec![("K".to_string(), "V".to_string())]);
    assert_eq!(from_json(&parse_json("[1,\"x\"]")), serde_json::from_str::<Value>("[1,\"x\"]").unwrap());
    let _ = parse_json("{}");
}

#[test]
fn parse_reports_non_json_text() {
    let e = parse_canonical_str("{ not json").err().unwrap();
    assert!(e.starts_with("Failed to parse JSON: "));
}

#[test]
fn servers_come_in_name_order() {
    let config = parse_canonical_str(r#"{ "servers": { "zeta": { "command": "z" }, "alpha": { "command": "a" }, "Beta": {} } }"#).unwrap();
    let names: Vec<&str> = config.servers.iter().map(|(n, _)| n.as_str()).collect();
    assert_eq!(names, vec!["Beta", "alpha", "zeta"]);
}
