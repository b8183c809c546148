use searchmonkey::manifest::{PluginCapabilities, PluginPermission};
use searchmonkey::registry::{PluginRegistry, PluginVersions, RegisteredPlugin};
use searchmonkey::runtime::{
    discovered_plugins, issue_message, map_issue_row, plugin_health_summary, row_marked_missing, scan_action,
    scan_entry_allowed, PluginCountsEntry, PluginIndexRuntime, ScanAction,
};
use searchmonkey::winpath::PathStyle;
use searchmonkey::queue::ScanTask;
use searchmonkey::state_db::{IndexedFileRow, PluginCounts, PluginIssuePreference, PluginIssueRow};

fn plugin(name: &str, version: &str) -> RegisteredPlugin {
    RegisteredPlugin {
        id: format!("sm.plugin.{name}"),
        name: name.to_string(),
        version: version.to_string(),
        root_dir: format!("/plugins/{name}/{version}"),
        command: "run".to_string(),
        args: Vec::new(),
        handles: vec![format!(".{name}")],
        requires_entitlement: false,
        timeout_seconds: 30,
        capabilities: PluginCapabilities { text: true, layout: false, ocr: true },
        permissions: vec![PluginPermission::ReadSourceFile],
    }
}

fn registry() -> PluginRegistry {
    PluginRegistry {
        by_id: vec![plugin("pdf", "0.2.0"), plugin("docx", "1.0.0")],
        versions_by_id: vec![
            PluginVersions {
                plugin_id: "sm.plugin.pdf".to_string(),
                versions: vec![plugin("pdf", "0.1.10"), plugin("pdf", "0.2.0"), plugin("pdf", "0.1.9")],
            },
            PluginVersions {
                plugin_id: "sm.plugin.docx".to_string(),
                versions: vec![plugin("docx", "1.0.0")],
            },
        ],
        by_extension: Vec::new(),
        ignored_paths: Vec::new(),
    }
}

fn row(status: &str, attempts: u32) -> IndexedFileRow {
    IndexedFileRow {
        source_path: "/docs/a.pdf".to_string(),
        plugin_id: "sm.plugin.pdf".to_string(),
        source_size: 10,
        source_mtime: "2026-01-01T00:00:00Z".to_string(),
        cache_text_path: None,
        cache_meta_path: None,
        status: status.to_string(),
        error_code: None,
        error_message: None,
        error_hint: None,
        attempts,
        retry_after: None,
        plugin_version: "0.2.0".to_string(),
        indexed_at: None,
        checked_at: "2026-01-01T00:00:00Z".to_string(),
        updated_at: "2026-01-01T00:00:00Z".to_string(),
    }
}

fn issue(status: &str, code: Option<&str>, message: Option<&str>) -> PluginIssueRow {
    PluginIssueRow {
        source_path: "/docs/report.pdf".to_string(),
        plugin_id: "sm.plugin.pdf".to_string(),
        status: status.to_string(),
        error_code: code.map(|c| c.to_string()),
        error_message: message.map(|m| m.to_string()),
        error_hint: None,
        attempts: 2,
        retry_after: None,
        updated_at: "2026-01-02T00:00:00Z".to_string(),
    }
}

#[test]
fn scan_actions_follow_the_file_state() {
    let t = "2026-01-01T00:00:00Z";
    assert!(matches!(scan_action(None, "0.2.0", 10, t, false, false), ScanAction::Enqueue(1)));
    assert!(matches!(
        scan_action(Some(&row("ignored", 2)), "0.2.0", 11, t, false, false),
        ScanAction::SyncIgnored
    ));
    match scan_action(Some(&row("ready", 2)), "0.2.0", 11, t, true, false) {
        ScanAction::MarkStaleThenEnqueue(m, 1) => {
            assert_eq!(m, "Source file or plugin version changed")
        }
        other => panic!("unexpected {other:?}"),
    }
    match scan_action(Some(&row("ready", 2)), "0.3.0", 10, t, true, false) {
        ScanAction::MarkStaleThenEnqueue(_, 1) => {}
        other => panic!("unexpected {other:?}"),
    }
    assert!(matches!(
        scan_action(Some(&row("ready", 2)), "0.1.0", 10, t, true, false),
        ScanAction::MarkReady
    ));
    assert!(matches!(
        scan_action(Some(&row("failed", 4)), "0.2.0", 10, t, false, true),
        ScanAction::Touch
    ));
    assert!(matches!(
        scan_action(Some(&row("failed", 2)), "0.2.0", 10, t, false, false),
        ScanAction::Touch
    ));
    assert!(matches!(
        scan_action(Some(&row("failed", 2)), "0.2.0", 10, t, false, true),
        ScanAction::Enqueue(3)
    ));
    assert!(matches!(
        scan_action(Some(&row("queued", 0)), "0.2.0", 10, t, false, false),
        ScanAction::Enqueue(1)
    ));
    assert!(matches!(
        scan_action(Some(&row("skipped", 1)), "0.2.0", 10, t, false, false),
        ScanAction::Touch
    ));
    match scan_action(Some(&row("ready", 0)), "0.2.0", 10, t, false, false) {
        ScanAction::MarkStaleThenEnqueue(m, 1) => assert_eq!(m, "Cache missing"),
        other => panic!("unexpected {other:?}"),
    }
}

#[test]
fn scans_skip_plugin_index_and_build_folders() {
    let plugins = vec!["/home/u/.config/sm/plugins".to_string()];
    let index = vec!["/home/u/.local/share/sm/index".to_string()];
    assert!(scan_entry_allowed(PathStyle::Unix, "/home/u/docs", &plugins, &index));
    assert!(!scan_entry_allowed(PathStyle::Unix, "/home/u/.config/sm/plugins/pdf", &plugins, &index));
    assert!(!scan_entry_allowed(PathStyle::Unix, "/home/u/.local/share/sm/index", &plugins, &index));
    assert!(!scan_entry_allowed(PathStyle::Unix, "/home/u/code/node_modules", &plugins, &index));
    assert!(!scan_entry_allowed(PathStyle::Unix, "/home/u/code/.git", &plugins, &index));
    assert!(scan_entry_allowed(PathStyle::Unix, "/home/u/code/targets", &plugins, &index));
}

#[test]
fn windows_scans_skip_plugin_and_index_folders() {
    let plugins = vec![r"C:\Users\u\AppData\Roaming\Searchmonkey-3\plugins".to_string()];
    let index = vec![r"C:\Users\u\AppData\Roaming\Searchmonkey-3\index".to_string()];
    let w = PathStyle::Windows;
    assert!(scan_entry_allowed(w, r"C:\Users\u\Documents", &plugins, &index));
    assert!(!scan_entry_allowed(w, r"C:\Users\u\AppData\Roaming\Searchmonkey-3\index\C\x", &plugins, &index));
    assert!(!scan_entry_allowed(w, r"c:/Users/u/AppData/Roaming/Searchmonkey-3/plugins/pdf", &plugins, &index));
    assert!(scan_entry_allowed(w, r"D:\Users\u\AppData\Roaming\Searchmonkey-3\index", &plugins, &index));
    assert!(!scan_entry_allowed(w, r"D:\code\node_modules", &plugins, &index));
    assert!(scan_entry_allowed(
        PathStyle::Unix,
        r"C:\Users\u\AppData\Roaming\Searchmonkey-3\index\C\x",
        &plugins,
        &index
    ));
}


#[test]
fn installed_plugins_sort_by_name_active_then_version() {
    let list = discovered_plugins(&registry(), &vec!["sm.plugin.docx".to_string()]);
    let shown: Vec<(String, String, bool, bool)> = list
        .iter()
        .map(|p| (p.name.clone(), p.version.clone(), p.is_active, p.enabled))
        .collect();
    assert_eq!(
        shown,
        vec![
            ("docx".to_string(), "1.0.0".to_string(), true, false),
            ("pdf".to_string(), "0.2.0".to_string(), true, true),
            ("pdf".to_string(), "0.1.10".to_string(), false, true),
            ("pdf".to_string(), "0.1.9".to_string(), false, true),
        ]
    );
    assert_eq!(list[1].root_path, "/plugins/pdf/0.2.0");
    assert!(list[1].capabilities.ocr);
}

#[test]
fn issues_are_shown_with_codes_and_messages() {
    assert_eq!(issue_message(&issue("stale", None, Some("x"))), "Needs reprocessing");
    assert_eq!(issue_message(&issue("missing", None, None)), "Source file missing");
    assert_eq!(issue_message(&issue("skipped", None, None)), "Skipped");
    assert_eq!(issue_message(&issue("skipped", None, Some("No plugin"))), "No plugin");
    assert_eq!(issue_message(&issue("failed", None, Some("Boom"))), "Boom");
    assert_eq!(issue_message(&issue("ignored", None, None)), "Plugin issue");

    let shown = map_issue_row(&issue("failed", Some("encrypted_pdf"), Some("Encrypted PDF")));
    assert_eq!(shown.file_name, "report.pdf");
    assert_eq!(shown.error_code, "encrypted_pdf");
    assert_eq!(shown.details, "Encrypted PDF");
    assert_eq!(shown.last_reported_at, "2026-01-02T00:00:00Z");
    let bare = map_issue_row(&issue("missing", None, None));
    assert_eq!(bare.error_code, "missing");
    assert_eq!(bare.details, "Source file missing");
}

#[test]
fn status_reports_queues_and_counts() {
    let mut rt = PluginIndexRuntime::new(vec!["/plugins".to_string()], vec!["/index".to_string()]);
    assert_eq!(rt.default_plugin_folder(), Some("/plugins".to_string()));
    assert!(rt.is_idle());
    let installed = discovered_plugins(&registry(), &Vec::new());
    let counts = vec![PluginCountsEntry {
        plugin_id: "sm.plugin.pdf".to_string(),
        counts: PluginCounts {
            indexed_count: 5,
            attention_count: 1,
            ignored_count: 0,
            queued_count: 2,
            processing_count: 0,
            blocked_count: 0,
        },
    }];
    let prefs = vec![PluginIssuePreference {
        plugin_id: "sm.plugin.pdf".to_string(),
        error_code: "encrypted_pdf".to_string(),
    }];
    let status = rt.status(installed, &counts, &vec![issue("failed", None, None)], &prefs);
    assert_eq!(status.indexing_state, "idle");
    assert_eq!(status.plugin_state, "idle");
    assert_eq!(status.enabled_plugins.len(), 4);
    assert_eq!(status.plugin_summaries[0].plugin_id, "sm.plugin.docx");
    assert_eq!(status.plugin_summaries[0].indexed_count, 0);
    assert_eq!(status.plugin_summaries[1].indexed_count, 5);
    assert_eq!(status.issues.len(), 1);
    assert_eq!(status.auto_ignored_issue_types[0].error_code, "encrypted_pdf");

    assert!(rt.request_scan("/home"));
    let status = rt.status(Vec::new(), &counts, &Vec::new(), &Vec::new());
    assert_eq!(status.indexing_state, "idle");
    rt.request_plugin_refresh(" sm.plugin.pdf ", &vec!["/home".to_string()]).unwrap();
    let status = rt.status(Vec::new(), &counts, &Vec::new(), &Vec::new());
    assert_eq!(status.indexing_state, "queued");
    assert_eq!(status.plugin_state, "working");
    rt.set_paused(true);
    let status = rt.status(Vec::new(), &counts, &Vec::new(), &Vec::new());
    assert_eq!(status.indexing_state, "paused");
    assert_eq!(status.plugin_state, "idle");
    assert!(status.paused);
    rt.rebuild();
    rt.set_paused(false);
    assert!(rt.is_idle());
    assert_eq!(
        rt.request_plugin_refresh("  ", &Vec::new()),
        Err("plugin id is required".to_string())
    );
    let _ = plugin_health_summary("x", None);
}

#[test]
fn requests_are_checked() {
    let mut rt = PluginIndexRuntime::new(Vec::new(), Vec::new());
    assert_eq!(rt.default_plugin_folder(), None);
    let reg = registry();
    assert_eq!(
        rt.set_plugin_enabled(&reg, "sm.plugin.ocr", true, &Vec::new()),
        Err("plugin sm.plugin.ocr is not installed".to_string())
    );
    assert_eq!(rt.set_plugin_enabled(&reg, " sm.plugin.pdf ", false, &Vec::new()), Ok("sm.plugin.pdf".to_string()));
    assert_eq!(rt.set_active_plugin_version(&reg, "sm.plugin.pdf", "0.1.9"), Ok(()));
    assert_eq!(
        rt.set_active_plugin_version(&reg, "sm.plugin.pdf", "9.9.9"),
        Err("plugin sm.plugin.pdf version 9.9.9 is not installed".to_string())
    );
    assert_eq!(
        rt.ignore_issue_type("pdf", " "),
        Err("plugin id and error code are required".to_string())
    );
    assert_eq!(
        rt.set_issue_type_auto_ignore(" pdf ", " code "),
        Ok(("pdf".to_string(), "code".to_string()))
    );
    let rows = vec![
        issue("failed", Some("encrypted_pdf"), None),
        issue("ignored", Some("encrypted_pdf"), None),
        issue("missing", None, None),
    ];
    assert_eq!(
        rt.retry_issue_type("sm.plugin.pdf", "encrypted_pdf", &rows),
        Ok(vec!["/docs/report.pdf".to_string()])
    );
    assert_eq!(
        rt.retry_issue_type("sm.plugin.pdf", "missing", &rows),
        Ok(vec!["/docs/report.pdf".to_string()])
    );
}

#[test]
fn rows_not_seen_and_gone_are_marked_missing() {
    let seen = vec![("/docs/a.pdf".to_string(), "sm.plugin.pdf".to_string())];
    assert!(!row_marked_missing(&seen, "/docs/a.pdf", "sm.plugin.pdf", false));
    assert!(row_marked_missing(&seen, "/docs/a.pdf", "sm.plugin.ocr", false));
    assert!(!row_marked_missing(&seen, "/docs/b.pdf", "sm.plugin.pdf", true));
    assert!(row_marked_missing(&seen, "/docs/b.pdf", "sm.plugin.pdf", false));
    assert!(row_marked_missing(&Vec::new(), "/docs/a.pdf", "sm.plugin.pdf", false));
}

#[test]
fn rebuild_forgets_running_refreshes() {
    let mut rt = PluginIndexRuntime::new(Vec::new(), Vec::new());
    assert!(rt.state.queue_refresh("/home", "sm.plugin.pdf"));
    assert!(rt.state.next_scan_task().is_some());
    assert!(!rt.state.queue_refresh("/home", "sm.plugin.pdf"));
    rt.rebuild();
    assert!(rt.state.queue_refresh("/home", "sm.plugin.pdf"));
}

#[test]
fn refreshes_are_queued_in_root_order_and_running_ones_kept() {
    let mut rt = PluginIndexRuntime::new(Vec::new(), Vec::new());
    let reg = registry();
    let roots = vec!["/a".to_string(), "/b".to_string()];
    assert_eq!(rt.set_plugin_enabled(&reg, " sm.plugin.pdf ", true, &roots), Ok("sm.plugin.pdf".to_string()));
    assert_eq!(rt.state.pending_refreshes_len(), 2);
    match rt.state.next_scan_task() {
        Some(ScanTask::PluginRefresh(key)) => {
            assert_eq!(key.path, "/a");
            assert_eq!(key.plugin_id, "sm.plugin.pdf");
        }
        other => panic!("unexpected {other:?}"),
    }
    rt.set_paused(true);
    assert_eq!(rt.refresh_plugin_supported_files("sm.plugin.pdf", &roots), Ok(()));
    assert_eq!(rt.state.pending_refreshes_len(), 1);
    assert!(rt.state.paused());
    rt.search_started();
    rt.search_finished();
    assert!(rt.state.paused());
}
