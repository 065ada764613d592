use mcp_sync::config::{parse_canonical_str, CanonicalConfig};
use mcp_sync::json_text::{parse_json_text, pretty_json};
use mcp_sync::json::Json;
use mcp_sync::targets::ZedTarget;
use mcp_sync::targets::zed::reindent;
use mcp_sync::jsonc::strip_jsonc_comments;
use serde_json::Value;

fn parse_json(text: &str) -> Json {
    parse_json_text(text).unwrap()
}

fn from_json(j: &Json) -> Value {
    serde_json::from_str(&pretty_json(j).unwrap()).unwrap()
}

fn zed_sync_text(content: &str, config: &CanonicalConfig) -> Option<String> {
    ZedTarget::new_settings(content, config)
}

#[test]
fn test_find_context_servers_span_clean() {
    let text = r#"{
  "theme": "One Dark",
  "context_servers": {
    "server-1": {
      "enabled": true,
      "url": "https://example.com"
    }
  },
  "git_panel": {
    "dock": "left"
  }
}"#;

    let span = ZedTarget::find_context_servers_span(text);
    assert!(span.is_some());
    let (start, end) = span.unwrap();
    let extracted = &text[start..end];
    assert!(extracted.starts_with("\"context_servers\""));
    assert!(extracted.ends_with('}'));
    assert!(extracted.contains("server-1"));
}

#[test]
fn test_find_context_servers_span_with_comments_and_braces_in_strings() {
    let text = r#"{
  // This is a comment before
  /* Multi-line
     comment with "context_servers" fake key
  */
  "context_servers": {
    "server-complex": {
      "enabled": false,
      "command": "echo",
      "args": ["{not_a_brace}", "another } fake brace"]
    }
  },
  "other_key": true
}"#;

    let span = ZedTarget::find_context_servers_span(text);
    assert!(span.is_some());
    let (start, end) = span.unwrap();
    let extracted = &text[start..end];
    assert!(extracted.starts_with("\"context_servers\""));
    assert!(extracted.ends_with('}'));
    assert!(extracted.contains("server-complex"));
    assert!(extracted.contains("not_a_brace"));
}

#[test]
fn test_zed_sync_file_splicing() {
    let initial_content = r#"{
  "theme": "One Dark",
  "context_servers": {
    "old-server": {
      "enabled": false,
      "url": "https://old.com"
    }
  },
  "git_panel": {
    "dock": "left"
  }
}
"#;

    let canonical = r#"{
        "servers": {
            "old-server": {
                "url": "https://updated-old.com"
            },
            "brand-new": {
                "command": "npx",
                "args": ["-y", "brand-new-pkg"]
            }
        }
    }"#;
    let config = parse_canonical_str(canonical).unwrap();

    let res = zed_sync_text(initial_content, &config);
    assert!(res.is_some());

    let updated = res.unwrap();

    // Verify surrounding settings are intact
    assert!(updated.contains("\"theme\": \"One Dark\""));
    assert!(updated.contains("\"git_panel\""));

    // Verify smart merge: old-server preserved its enabled: false state!
    assert!(updated.contains("\"old-server\""));
    assert!(updated.contains("\"enabled\": false"));
    assert!(updated.contains("https://updated-old.com"));

    // Verify brand-new server defaulted to enabled: true
    assert!(updated.contains("\"brand-new\""));
    assert!(updated.contains("\"enabled\": true"));
}

#[test]
fn span_is_none_without_key() {
    assert_eq!(ZedTarget::find_context_servers_span(r#"{ "theme": "x" }"#), None);
    assert_eq!(ZedTarget::find_context_servers_span(r#"{ "context_servers": 5 }"#), None);
}

#[test]
fn span_skips_key_inside_string_value() {
    let text = r#"{ "a": "\"context_servers\": {", "context_servers": { "x": {} } }"#;
    let (s, e) = ZedTarget::find_context_servers_span(text).unwrap();
    assert_eq!(&text[s..e], r#""context_servers": { "x": {} }"#);
}

#[test]
fn strip_removes_comments_and_trailing_commas() {
    let text = "{\n  // c\n  \"a\": [1, 2,], /* b */ \"s\": \"// not a comment\",\n}";
    let out = strip_jsonc_comments(text);
    let v: Value = serde_json::from_str(&out).unwrap();
    assert_eq!(v["a"], serde_json::from_str::<Value>("[1,2]").unwrap());
    assert_eq!(v["s"].as_str(), Some("// not a comment"));
}

#[test]
fn reindent_prefixes_following_lines() {
    assert_eq!(reindent("{\n  \"a\": 1\n}", "    "), "{\n      \"a\": 1\n    }");
    assert_eq!(reindent("one", ">>"), "one");
    assert_eq!(reindent("a\r\nb\n", "-"), "a\n-b");
}

#[test]
fn render_block_layout() {
    let entries = vec![
        ("one".to_string(), "{\n  \"enabled\": true\n}".to_string()),
        ("two".to_string(), "{}".to_string()),
    ];
    assert_eq!(
        ZedTarget::render_context_servers(&entries),
        "\"context_servers\": {\n    \"one\": {\n      \"enabled\": true\n    },\n    \"two\": {}\n  }"
    );
}

#[test]
fn splice_appends_block_when_missing() {
    assert_eq!(
        ZedTarget::splice_settings("{\n  \"theme\": \"x\"\n}\n", "B").unwrap(),
        "{\n  \"theme\": \"x\",\n  B\n}\n"
    );
    assert_eq!(ZedTarget::splice_settings("{}", "B").unwrap(), "{\n  B\n}\n");
    assert_eq!(ZedTarget::splice_settings("no braces", "B"), None);
}

#[test]
fn splice_replaces_existing_block_only() {
    let text = "{ \"a\": 1, \"context_servers\": { \"x\": {} }, \"b\": 2 }";
    assert_eq!(
        ZedTarget::splice_settings(text, "NEW").unwrap(),
        "{ \"a\": 1, NEW, \"b\": 2 }"
    );
}

#[test]
fn zed_sync_is_stable_on_second_run() {
    let config = parse_canonical_str(r#"{ "servers": { "s": { "command": "c", "enabled": false } } }"#).unwrap();
    let first = zed_sync_text("{\n  \"context_servers\": {\n    \"keep\": { \"enabled\": true }\n  }\n}\n", &config).unwrap();
    let second = zed_sync_text(&first, &config).unwrap();
    assert_eq!(first, second);
    assert!(first.contains("\"keep\""));
    assert!(first.contains("\"enabled\": false"));
    let _ = parse_json("{}");
}

#[test]
fn span_requires_object_value() {
    assert_eq!(ZedTarget::find_context_servers_span("{\"context_servers\": null, \"x\": {}}"), None);
    let text = "{\"context_servers\" :\n {\"a\": {}}}";
    let (s, e) = ZedTarget::find_context_servers_span(text).unwrap();
    assert_eq!(&text[s..e], "\"context_servers\" :\n {\"a\": {}}");
}

#[test]
fn span_skips_comments_before_the_brace() {
    let text = "{\"context_servers\":/**/{}}";
    let (s, e) = ZedTarget::find_context_servers_span(text).unwrap();
    assert_eq!((s, e), (1, 25));
    assert_eq!(&text[s..e], "\"context_servers\":/**/{}");
    let text = "{\n  \"context_servers\" // servers\n  /* x */ : // here\n  { \"a\": {} }\n}";
    let (s, e) = ZedTarget::find_context_servers_span(text).unwrap();
    assert_eq!(&text[s..e], "\"context_servers\" // servers\n  /* x */ : // here\n  { \"a\": {} }");
}

#[test]
fn existing_servers_keep_non_ascii_text() {
    let text = "{\"context_servers\": {\"a\": {\"command\": \"café\"}}} // ünïcode";
    let (servers, states) = ZedTarget::parse_existing_servers(text);
    assert_eq!(servers.len(), 1);
    assert_eq!(servers[0].0, "a");
    assert_eq!(from_json(&servers[0].1), serde_json::from_str::<Value>("{\"command\": \"café\"}").unwrap());
    assert_eq!(states, vec![("a".to_string(), true)]);
    assert_eq!(strip_jsonc_comments("{\"k\": \"ü/*x*/\"} /* é */"), "{\"k\": \"ü/*x*/\"} ");
}

#[test]
fn unmanaged_non_ascii_server_survives_sync() {
    let config = parse_canonical_str(r#"{ "servers": { "m": { "command": "c" } } }"#).unwrap();
    let text = "{\n  \"context_servers\": {\n    \"only-zed\": { \"command\": \"naïve-tool\" }\n  }\n}\n";
    let out = zed_sync_text(text, &config).unwrap();
    assert!(out.contains("naïve-tool"));
}
