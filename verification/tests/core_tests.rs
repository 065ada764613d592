use mcp_sync::cli::{parse_cli_args, parse_target_list, validate_targets, CliRequest};
use mcp_sync::config::{canonical_path_in, parse_canonical_value, resolve_canonical_path, CanonicalConfig};
use mcp_sync::fs_utils::{join_path, temp_file_name};
use mcp_sync::json::Json;
use mcp_sync::logger::{format_timestamp, Console, Logger};
use mcp_sync::targets::{available_targets, should_sync, sync_all, TargetKind};
use mcp_sync::watcher::{affects_canonical, watch_parts, watch_target, watching_line, Debouncer, WatchAction};

fn args(v: &[&str]) -> Vec<String> {
    v.iter().map(|s| s.to_string()).collect()
}

fn config_with(n: usize) -> CanonicalConfig {
    let mut members = Vec::new();
    for i in 0..n {
        members.push((format!("s{}", i), Json::Object(vec![("command".to_string(), Json::Str("c".to_string()))])));
    }
    parse_canonical_value(&Json::Object(vec![("servers".to_string(), Json::Object(members))])).unwrap()
}

#[test]
fn cli_defaults() {
    match parse_cli_args(&args(&[])).unwrap() {
        CliRequest::Run(a) => {
            assert!(!a.watch && !a.dry_run && !a.quiet);
            assert!(a.targets.is_empty());
            assert_eq!(a.config_path, None);
            assert_eq!(a.log_path, None);
        }
        _ => panic!("expected a run"),
    }
}

#[test]
fn cli_reads_all_options() {
    let r = parse_cli_args(&args(&["-w", "--dry-run", "-q", "-t", " Zed, ,VSCode ", "--target", "opencode", "-c", "/c.json", "--log-file", "/l.log"])).unwrap();
    match r {
        CliRequest::Run(a) => {
            assert!(a.watch && a.dry_run && a.quiet);
            assert_eq!(a.targets, args(&["zed", "vscode", "opencode"]));
            assert_eq!(a.config_path.as_deref(), Some("/c.json"));
            assert_eq!(a.log_path.as_deref(), Some("/l.log"));
        }
        _ => panic!("expected a run"),
    }
}

#[test]
fn cli_errors() {
    assert_eq!(parse_cli_args(&args(&["--target"])).err(), Some("--target requires an argument".to_string()));
    assert_eq!(parse_cli_args(&args(&["-c"])).err(), Some("--config requires a path argument".to_string()));
    assert_eq!(parse_cli_args(&args(&["-l"])).err(), Some("--log-file requires a path argument".to_string()));
    assert_eq!(
        parse_cli_args(&args(&["--bogus"])).err(),
        Some("Unknown argument '--bogus'. Use --help for usage.".to_string())
    );
    assert_eq!(
        parse_cli_args(&args(&["-t", "zed,emacs"])).err(),
        Some("Invalid target 'emacs'. Valid targets are: zed, vscode, antigravity, opencode".to_string())
    );
}

#[test]
fn cli_help_and_version_answer_at_once() {
    assert!(matches!(parse_cli_args(&args(&["-h", "--bogus"])), Ok(CliRequest::Help)));
    assert!(matches!(parse_cli_args(&args(&["-V"])), Ok(CliRequest::Version)));
    assert!(matches!(parse_cli_args(&args(&["-v"])), Ok(CliRequest::Version)));
    assert!(parse_cli_args(&args(&["--bogus", "-h"])).is_err());
}

#[test]
fn target_lists() {
    assert_eq!(parse_target_list("A,,b ,\tC"), args(&["a", "b", "c"]));
    assert!(parse_target_list("").is_empty());
    assert!(validate_targets(&args(&["antigravity", "opencode"])).is_ok());
}

#[test]
fn registry_and_filter() {
    let names: Vec<&str> = available_targets().iter().map(|k| k.name()).collect();
    assert_eq!(names, vec!["zed", "vscode", "antigravity", "opencode"]);
    assert!(should_sync(&args(&[]), "zed"));
    assert!(should_sync(&args(&["zed"]), "zed"));
    assert!(!should_sync(&args(&["vscode"]), "zed"));
}

#[test]
fn sync_all_runs_selected_and_summarizes() {
    let config = config_with(2);
    let (r, logs) = sync_all(&config, &args(&["opencode", "zed"]), &|k: TargetKind| Ok(format!("[{}] Updated x", k.name())));
    assert_eq!(r.unwrap(), args(&["[zed] Updated x", "[opencode] Updated x"]));
    assert_eq!(
        logs,
        vec![
            ("INFO".to_string(), "[zed] Updated x".to_string()),
            ("INFO".to_string(), "[opencode] Updated x".to_string()),
            ("INFO".to_string(), "Synced 2 servers to targets: [zed, opencode]".to_string()),
        ]
    );
}

#[test]
fn sync_all_stops_at_first_failure() {
    let config = config_with(1);
    let (r, logs) = sync_all(&config, &args(&[]), &|k: TargetKind| {
        if k == TargetKind::VSCode { Err("boom".to_string()) } else { Ok(k.name().to_string()) }
    });
    assert_eq!(r.err(), Some("[vscode] Sync failed: boom".to_string()));
    assert_eq!(
        logs,
        vec![
            ("INFO".to_string(), "zed".to_string()),
            ("ERROR".to_string(), "[vscode] Sync failed: boom".to_string()),
        ]
    );
}

#[test]
fn sync_all_with_nothing_selected() {
    let config = config_with(0);
    let (r, logs) = sync_all(&config, &args(&["nothing"]), &|_k: TargetKind| Err("never".to_string()));
    assert!(r.unwrap().is_empty());
    assert_eq!(logs, vec![("INFO".to_string(), "Synced 0 servers to targets: []".to_string())]);
}

#[test]
fn logger_records() {
    let l = Logger::new(Some("/tmp/x.log".to_string()), false);
    assert_eq!(l.log_path(), "/tmp/x.log");
    let r = l.info("hello", "2024-01-02 03:04:05");
    assert_eq!(r.line, "2024-01-02 03:04:05 [INFO] hello\n");
    assert_eq!(r.console, Some(Console::Stdout));
    assert_eq!(l.error("bad", "T").console, Some(Console::Stderr));
    assert_eq!(l.warn("w", "T").line, "T [WARN] w\n");
    let q = Logger::new(Some("/tmp/x.log".to_string()), true);
    assert!(q.is_quiet());
    assert_eq!(q.info("hello", "T").console, None);
    assert_eq!(q.error("bad", "T").console, Some(Console::Stderr));
}

#[test]
fn logger_default_path_ends_with_log_name() {
    let l = Logger::new(None, false);
    assert!(l.log_path().ends_with("mcp-sync.log"));
}

#[test]
fn timestamps() {
    assert_eq!(format_timestamp(2024, 1, 2, 3, 4, 5), "2024-01-02 03:04:05");
    assert_eq!(format_timestamp(987, 12, 31, 23, 59, 60), "0987-12-31 23:59:60");
}

#[test]
fn debounce() {
    let mut d = Debouncer::new();
    assert_eq!(d.next(0), WatchAction::Wait(3_600_000));
    d.on_event(false, 10);
    assert_eq!(d.next(20), WatchAction::Wait(3_600_000));
    d.on_event(true, 100);
    assert_eq!(d.next(200), WatchAction::Wait(150));
    d.on_event(true, 300);
    assert_eq!(d.next(549), WatchAction::Wait(1));
    assert_eq!(d.next(550), WatchAction::Sync);
    assert_eq!(d.next(551), WatchAction::Wait(3_600_000));
}

#[test]
fn debounce_burst_fires_once() {
    let mut d = Debouncer::new();
    let mut syncs = 0;
    for (i, t) in [1000u64, 1100, 1200, 1300, 1449].iter().enumerate() {
        d.on_event(i % 2 == 0 || *t == 1449, *t);
        d.on_event(false, *t + 1);
        if d.next(*t + 50) == WatchAction::Sync {
            syncs += 1;
        }
    }
    assert_eq!(syncs, 0);
    assert_eq!(d.next(1698), WatchAction::Wait(1));
    assert_eq!(d.next(1699), WatchAction::Sync);
    assert_eq!(d.next(1700), WatchAction::Wait(3_600_000));
}

#[test]
fn event_relevance() {
    let names = vec![None, Some("other.json".to_string()), Some("servers.json".to_string())];
    assert!(affects_canonical(&names, "servers.json"));
    assert!(!affects_canonical(&names[..2].to_vec(), "servers.json"));
    assert_eq!(
        watching_line("/c/servers.json"),
        "Watching /c/servers.json for changes (debounce: 250ms)... Press Ctrl+C to stop."
    );
}

#[test]
fn canonical_path_lookup() {
    let p = canonical_path_in(Some("/cfg".to_string()), Some("/home/u".to_string()), &|s: &str| s == "/home/u/.config/mcp/mcp.json");
    assert_eq!(p.unwrap(), "/home/u/.config/mcp/mcp.json");
    let p = canonical_path_in(Some("/cfg/".to_string()), None, &|_s: &str| false);
    assert_eq!(p.unwrap(), "/cfg/mcp/servers.json");
    let p = canonical_path_in(None, None, &|_s: &str| true);
    assert_eq!(p.err(), Some("Could not determine user config directory".to_string()));
    assert_eq!(resolve_canonical_path(Some("/x.json".to_string()), |_s: &str| false).unwrap(), "/x.json");
}

#[test]
fn paths() {
    assert_eq!(join_path("/a", "b"), "/a/b");
    assert_eq!(join_path("/a/", "b"), "/a/b");
    assert_eq!(join_path("", "b"), "b");
    assert_eq!(temp_file_name("settings.json", 42, 1700), ".settings.json.tmp.42.1700");
}


#[test]
fn watch_path_parts() {
    assert_eq!(watch_target("/c/mcp/servers.json").unwrap(), ("/c/mcp".to_string(), "servers.json".to_string()));
    assert_eq!(watch_target("/").err(), Some("Cannot determine parent directory of /".to_string()));
    assert_eq!(
        watch_parts("x/..", Some("x".to_string()), None).err(),
        Some("Invalid file path x/..".to_string())
    );
}
