use mcp_sync::config::{parse_canonical_str, CanonicalConfig};
use mcp_sync::json_text::{parse_json_text, pretty_json};
use mcp_sync::json::Json;
use mcp_sync::targets::{AntigravityTarget, CodexTarget, OpenCodeTarget, VSCodeTarget, ZedTarget};
use serde_json::Value;

fn parse_json(text: &str) -> Json {
    parse_json_text(text).unwrap()
}

fn from_json(j: &Json) -> Value {
    serde_json::from_str(&pretty_json(j).unwrap()).unwrap()
}

fn zed_sync_text(content: &str, config: &CanonicalConfig) -> Option<String> {
    ZedTarget::new_settings(content, config)
}

fn pretty(j: &Json) -> String {
    pretty_json(j).unwrap()
}

#[test]
fn test_antigravity_disabled_state_preservation() {
    let initial_content = r#"{
  "mcpServers": {
    "server-disabled": {
      "command": "node",
      "args": ["server.js"],
      "disabled": true
    },
    "server-active": {
      "command": "python",
      "args": ["server.py"]
    }
  }
}"#;

    let target = AntigravityTarget::new(Some("mcp_config.json".to_string()));

    let canonical = r#"{
        "servers": {
            "server-disabled": {
                "command": "node",
                "args": ["updated.js"]
            },
            "server-active": {
                "command": "python",
                "args": ["server.py"]
            },
            "server-new": {
                "url": "https://remote.example.com/sse"
            }
        }
    }"#;

    let config = parse_canonical_str(canonical).unwrap();
    let existing = parse_json(initial_content);
    let updated = pretty(&target.build_doc(&config, Some(&existing)));
    let doc: serde_json::Value = serde_json::from_str(&updated).unwrap();
    let servers = doc.get("mcpServers").unwrap().as_object().unwrap();

    // server-disabled still has disabled: true
    let s_disabled = servers.get("server-disabled").unwrap();
    assert_eq!(s_disabled.get("disabled").and_then(|d| d.as_bool()), Some(true));
    assert_eq!(s_disabled.get("args").unwrap().as_array().unwrap()[0].as_str().unwrap(), "updated.js");

    // server-active has no disabled flag
    let s_active = servers.get("server-active").unwrap();
    assert!(s_active.get("disabled").is_none());

    // server-new has serverUrl
    let s_new = servers.get("server-new").unwrap();
    assert_eq!(s_new.get("serverUrl").unwrap().as_str().unwrap(), "https://remote.example.com/sse");
    assert!(s_new.get("disabled").is_none());
}

#[test]
fn test_vscode_servers_and_inputs_preservation() {
    let initial_content = r#"{
  "servers": {
    "old": {
      "type": "stdio",
      "command": "echo"
    }
  },
  "inputs": [
    {
      "id": "my-secret-key",
      "type": "promptString",
      "description": "Enter API key"
    }
  ]
}"#;

    let target = VSCodeTarget::new(Some("mcp.json".to_string()));

    let canonical = r#"{
        "servers": {
            "stdio-tool": {
                "command": "npx",
                "args": ["-y", "my-pkg"],
                "env": { "FOO": "bar" }
            },
            "http-tool": {
                "url": "https://example.com/mcp"
            }
        }
    }"#;

    let config = parse_canonical_str(canonical).unwrap();
    let existing = parse_json(initial_content);
    let updated = pretty(&target.build_doc(&config, Some(&existing)));
    let doc: serde_json::Value = serde_json::from_str(&updated).unwrap();

    // Verify servers block
    let servers = doc.get("servers").unwrap().as_object().unwrap();
    assert_eq!(servers.len(), 3); // 2 canonical + 1 preserved unmanaged

    let stdio = servers.get("stdio-tool").unwrap();
    assert_eq!(stdio.get("type").unwrap().as_str().unwrap(), "stdio");
    assert_eq!(stdio.get("command").unwrap().as_str().unwrap(), "npx");

    let http = servers.get("http-tool").unwrap();
    assert_eq!(http.get("type").unwrap().as_str().unwrap(), "http");
    assert_eq!(http.get("url").unwrap().as_str().unwrap(), "https://example.com/mcp");

    // Verify inputs preserved
    let inputs = doc.get("inputs").unwrap().as_array().unwrap();
    assert_eq!(inputs.len(), 1);
    assert_eq!(inputs[0].get("id").unwrap().as_str().unwrap(), "my-secret-key");
}

#[test]
fn test_safe_mode_unmanaged_server_preservation() {
    // 1. Test Zed preserves unmanaged server
    let zed_initial = r#"{
  "context_servers": {
    "managed-tool": {
      "enabled": true,
      "url": "https://managed.com"
    },
    "local-only-zed-tool": {
      "enabled": true,
      "command": "custom-cli",
      "args": ["--local"]
    }
  }
}"#;
    let canonical = r#"{
        "servers": {
            "managed-tool": {
                "url": "https://updated-managed.com"
            }
        }
    }"#;
    let config = parse_canonical_str(canonical).unwrap();
    let zed_updated = zed_sync_text(zed_initial, &config).unwrap();
    assert!(zed_updated.contains("\"local-only-zed-tool\""), "Unmanaged tool in Zed must be preserved");
    assert!(zed_updated.contains("https://updated-managed.com"));

    // 2. Test VSCode preserves unmanaged server
    let vscode_initial = r#"{
  "servers": {
    "managed-tool": { "type": "http", "url": "https://managed.com" },
    "local-vscode-tool": { "type": "stdio", "command": "vscode-tool" }
  },
  "inputs": []
}"#;
    let vscode_target = VSCodeTarget::new(Some("mcp.json".to_string()));
    let vscode_updated = pretty(&vscode_target.build_doc(&config, Some(&parse_json(vscode_initial))));
    assert!(vscode_updated.contains("\"local-vscode-tool\""), "Unmanaged tool in VSCode must be preserved");

    // 3. Test Antigravity preserves unmanaged server
    let ag_initial = r#"{
  "mcpServers": {
    "managed-tool": { "serverUrl": "https://managed.com" },
    "local-ag-tool": { "command": "ag-tool" }
  }
}"#;
    let ag_target = AntigravityTarget::new(Some("mcp_config.json".to_string()));
    let ag_updated = pretty(&ag_target.build_doc(&config, Some(&parse_json(ag_initial))));
    assert!(ag_updated.contains("\"local-ag-tool\""), "Unmanaged tool in Antigravity must be preserved");
}

#[test]
fn test_opencode_target_generation_and_safe_mode() {
    let initial_content = r#"{
  "$schema": "https://opencode.ai/config.json",
  "mcp": {
    "local-only": {
      "type": "local",
      "enabled": false,
      "command": ["custom-tool", "--flag"]
    }
  }
}"#;

    let target = OpenCodeTarget::new(Some("opencode.json".to_string()));

    let canonical = r#"{
        "servers": {
            "stdio-tool": {
                "command": "npx",
                "args": ["-y", "pkg"],
                "env": { "FOO": "bar" }
            },
            "http-tool": {
                "url": "https://api.example.com/mcp"
            }
        }
    }"#;

    let config = parse_canonical_str(canonical).unwrap();
    let existing = parse_json(initial_content);
    let mcp = target.build_mcp_map(&config, Some(&existing));
    let root = OpenCodeTarget::with_mcp(Some(existing), mcp);
    let updated = pretty(&root);
    let doc: serde_json::Value = serde_json::from_str(&updated).unwrap();

    // Verify $schema preserved
    assert_eq!(doc.get("$schema").unwrap().as_str().unwrap(), "https://opencode.ai/config.json");

    let mcp = doc.get("mcp").unwrap().as_object().unwrap();

    // Safe mode: local-only preserved
    assert!(mcp.contains_key("local-only"));
    let local_only = mcp.get("local-only").unwrap();
    assert_eq!(local_only.get("enabled").unwrap().as_bool().unwrap(), false);

    // Stdio tool formatted correctly
    let stdio = mcp.get("stdio-tool").unwrap();
    assert_eq!(stdio.get("type").unwrap().as_str().unwrap(), "local");
    assert_eq!(
        stdio.get("command").unwrap().as_array().unwrap(),
        &vec![serde_json::Value::String("npx".into()), serde_json::Value::String("-y".into()), serde_json::Value::String("pkg".into())]
    );
    assert_eq!(stdio.get("environment").unwrap().get("FOO").unwrap().as_str().unwrap(), "bar");
    assert_eq!(stdio.get("enabled").unwrap().as_bool().unwrap(), true);

    // HTTP tool formatted correctly
    let http = mcp.get("http-tool").unwrap();
    assert_eq!(http.get("type").unwrap().as_str().unwrap(), "remote");
    assert_eq!(http.get("url").unwrap().as_str().unwrap(), "https://api.example.com/mcp");
    assert_eq!(http.get("enabled").unwrap().as_bool().unwrap(), true);
}

#[test]
fn test_codex_target_generation_and_safe_mode() {
    let initial_content = r#"model = "gpt-6"
personality = "pragmatic"

[mcp_servers.disabled-srv]
command = "npx"
args = ["-y", "disabled-pkg"]
enabled = false

[mcp_servers.unmanaged-internal]
command = "/usr/lib/internal_repl"
args = []

[projects."/home/michael/my-project"]
trust_level = "trusted"
"#;

    let target = CodexTarget::new(Some("config.toml".to_string()), None);

    let canonical = r#"{
        "servers": {
            "disabled-srv": {
                "command": "npx",
                "args": ["-y", "updated-disabled-pkg"]
            },
            "new-stdio": {
                "command": "python",
                "args": ["server.py"],
                "env": { "PORT": "8080" }
            },
            "new-remote": {
                "url": "https://mcp.remote.com",
                "headers": { "X-Api-Key": "secret123" }
            }
        }
    }"#;

    let config = parse_canonical_str(canonical).unwrap();
    let updated = target.update_doc(&config, Some(initial_content)).unwrap().to_string();
    let doc: toml_edit::DocumentMut = updated.parse().unwrap();

    // Top-level keys preserved
    assert_eq!(doc["model"].as_str(), Some("gpt-6"));
    assert_eq!(doc["personality"].as_str(), Some("pragmatic"));

    // Other tables preserved
    assert!(doc.contains_key("projects"));

    let mcp = doc["mcp_servers"].as_table().unwrap();

    // Unmanaged server preserved
    assert!(mcp.contains_key("unmanaged-internal"));
    assert_eq!(
        mcp["unmanaged-internal"]["command"].as_str(),
        Some("/usr/lib/internal_repl")
    );

    // Smart merge: disabled-srv remains disabled
    let disabled_srv = &mcp["disabled-srv"];
    assert_eq!(disabled_srv["enabled"].as_bool(), Some(false));
    assert_eq!(
        disabled_srv["args"].as_array().unwrap().get(1).unwrap().as_str(),
        Some("updated-disabled-pkg")
    );

    // New stdio server formatted correctly
    let new_stdio = &mcp["new-stdio"];
    assert_eq!(new_stdio["command"].as_str(), Some("python"));
    assert!(new_stdio.get("enabled").is_none());
    assert_eq!(new_stdio["env"]["PORT"].as_str(), Some("8080"));

    // New remote server formatted correctly
    let new_remote = &mcp["new-remote"];
    assert_eq!(new_remote["url"].as_str(), Some("https://mcp.remote.com"));
    assert_eq!(
        new_remote["http_headers"]["X-Api-Key"].as_str(),
        Some("secret123")
    );
}

#[test]
fn codex_rejects_non_table_mcp_servers() {
    let config = parse_canonical_str(r#"{ "servers": { "a": { "command": "x" } } }"#).unwrap();
    let target = CodexTarget::new(Some("config.toml".to_string()), None);
    let r = target.update_doc(&config, Some("mcp_servers = 5\n"));
    assert_eq!(r.err(), Some("mcp_servers in config.toml is not a table".to_string()));
}

#[test]
fn codex_builds_new_document_and_switches_off() {
    let config = parse_canonical_str(
        r#"{ "servers": { "off": { "command": "c", "enabled": false, "env_vars": ["A"] } } }"#,
    )
    .unwrap();
    let target = CodexTarget::new(None, Some("/codex".to_string()));
    assert_eq!(target.path(), "/codex/config.toml");
    let text = target.update_doc(&config, None).unwrap().to_string();
    let doc: toml_edit::DocumentMut = text.parse().unwrap();
    assert_eq!(doc["mcp_servers"]["off"]["enabled"].as_bool(), Some(false));
    assert_eq!(doc["mcp_servers"]["off"]["env_vars"][0].as_str(), Some("A"));
    // Invalid text is treated as no file.
    let again = target.update_doc(&config, Some("= not toml")).unwrap().to_string();
    assert_eq!(again, text);
}

#[test]
fn codex_second_run_changes_nothing() {
    let config = parse_canonical_str(
        r#"{ "servers": {
            "off": { "command": "c", "args": ["x"], "enabled": false },
            "remote": { "url": "https://r.example", "headers": { "K": "v" } },
            "on": { "command": "d", "env": { "A": "1" }, "env_vars": ["B"] }
        } }"#,
    )
    .unwrap();
    let target = CodexTarget::new(Some("config.toml".to_string()), None);
    let initial = "model = \"m\"\n\n[mcp_servers.on]\nurl = \"https://old\"\nenabled = false\n\n[mcp_servers.keep]\ncommand = \"k\"\n";
    let first = target.update_doc(&config, Some(initial)).unwrap().to_string();
    let second = target.update_doc(&config, Some(&first)).unwrap().to_string();
    assert_eq!(first, second);
    let doc: toml_edit::DocumentMut = second.parse().unwrap();
    assert_eq!(doc["mcp_servers"]["on"]["enabled"].as_bool(), Some(false));
    assert!(doc["mcp_servers"]["on"].get("url").is_none());
    assert_eq!(doc["mcp_servers"]["off"]["enabled"].as_bool(), Some(false));
    assert!(doc["mcp_servers"]["remote"].get("enabled").is_none());
    assert_eq!(doc["mcp_servers"]["keep"]["command"].as_str(), Some("k"));
}

#[test]
fn codex_recorded_states_default_on() {
    let states = CodexTarget::recorded_states(Some(vec![
        ("a".to_string(), Some(false)),
        ("b".to_string(), None),
    ]));
    assert_eq!(states, vec![("a".to_string(), false), ("b".to_string(), true)]);
    assert!(CodexTarget::recorded_states(None).is_empty());
}

#[test]
fn opencode_creates_root_when_not_an_object() {
    let config = parse_canonical_str(r#"{ "servers": { "r": { "url": "https://u", "headers": { "H": "v" } } } }"#).unwrap();
    let target = OpenCodeTarget::new(Some("o.json".to_string()));
    let mcp = target.build_mcp_map(&config, None);
    let root = from_json(&OpenCodeTarget::with_mcp(Some(Json::Array(vec![])), mcp));
    assert_eq!(root["mcp"]["r"]["headers"]["H"].as_str(), Some("v"));
    assert_eq!(root["mcp"]["r"]["type"].as_str(), Some("remote"));
}

#[test]
fn sync_is_idempotent_for_json_clients() {
    let config = parse_canonical_str(
        r#"{ "servers": { "a": { "command": "x", "args": ["1"] }, "b": { "url": "https://b", "enabled": false } } }"#,
    )
    .unwrap();
    let ex = parse_json(r#"{ "mcpServers": { "a": { "disabled": true }, "z": { "command": "keep" } } }"#);
    let ag = AntigravityTarget::new(Some("x".to_string()));
    let d1 = ag.build_doc(&config, Some(&ex));
    let d2 = ag.build_doc(&config, Some(&d1));
    assert_eq!(pretty(&d1), pretty(&d2));
    let vs = VSCodeTarget::new(Some("y".to_string()));
    let v1 = vs.build_doc(&config, None);
    let v2 = vs.build_doc(&config, Some(&v1));
    assert_eq!(pretty(&v1), pretty(&v2));
    assert_eq!(from_json(&v1)["inputs"], serde_json::from_str::<Value>("[]").unwrap());
}

#[test]
fn opencode_second_run_changes_nothing() {
    let config = parse_canonical_str(
        r#"{ "servers": { "a": { "command": "x", "env": { "K": "V" } }, "b": { "url": "https://b", "enabled": false } } }"#,
    )
    .unwrap();
    let target = OpenCodeTarget::new(Some("o.json".to_string()));
    let start = parse_json(r#"{ "theme": "t", "mcp": { "a": { "enabled": false }, "z": { "type": "local" } } }"#);
    let mcp1 = target.build_mcp_map(&config, Some(&start));
    let r1 = OpenCodeTarget::with_mcp(Some(start), mcp1);
    let mcp2 = target.build_mcp_map(&config, Some(&r1));
    let text1 = pretty(&r1);
    let r2 = OpenCodeTarget::with_mcp(Some(r1), mcp2);
    assert_eq!(text1, pretty(&r2));
    let v = from_json(&r2);
    assert_eq!(v["mcp"]["a"]["enabled"].as_bool(), Some(false));
    assert_eq!(v["mcp"]["b"]["enabled"].as_bool(), Some(false));
    assert_eq!(v["mcp"]["z"]["type"].as_str(), Some("local"));
    assert_eq!(v["theme"].as_str(), Some("t"));
}

#[test]
fn file_texts_from_existing_text() {
    let config = parse_canonical_str(r#"{ "servers": { "a": { "command": "x" } } }"#).unwrap();
    let oc = OpenCodeTarget::new(Some("o.json".to_string()));
    let e = oc.new_file_text(&config, Some("{ broken")).err().unwrap();
    assert!(e.starts_with("Invalid JSON in o.json: "));
    let t = oc.new_file_text(&config, None).unwrap();
    let v: Value = serde_json::from_str(&t).unwrap();
    assert_eq!(v["mcp"]["a"]["command"][0].as_str(), Some("x"));
    let vs = VSCodeTarget::new(Some("m.json".to_string()));
    let t = vs.new_file_text(&config, Some("not json")).unwrap();
    let v: Value = serde_json::from_str(&t).unwrap();
    assert_eq!(v["servers"]["a"]["type"].as_str(), Some("stdio"));
    let ag = AntigravityTarget::new(Some("g.json".to_string()));
    let t = ag.new_file_text(&config, Some(r#"{"mcpServers": {"a": {"disabled": true}}}"#)).unwrap();
    let v: Value = serde_json::from_str(&t).unwrap();
    assert_eq!(v["mcpServers"]["a"]["disabled"].as_bool(), Some(true));
}
