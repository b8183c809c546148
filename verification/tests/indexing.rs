use searchmonkey::classifier::FileClassifier;
use searchmonkey::indexer::{
    cache_status_name, cache_verdict, meta_text_path_needs_rewrite, rewritten_meta_text, plugin_for_source, plugin_run_error,
    validation_error, CacheStatus, PluginExit,
};
use searchmonkey::manifest::{PluginCapabilities, PluginPermission};
use searchmonkey::meta::{SmGenerator, SmMeta, SmSource, SmText};
use searchmonkey::registry::{ExtensionPlugins, PluginRegistry, RegisteredPlugin};

fn registry() -> PluginRegistry {
    PluginRegistry {
        by_id: vec![RegisteredPlugin {
            id: "sm.plugin.pdf".to_string(),
            name: "PDF".to_string(),
            version: "0.1.0".to_string(),
            root_dir: "/plugins/pdf".to_string(),
            command: "/plugins/pdf/bin/run".to_string(),
            args: Vec::new(),
            handles: vec![".pdf".to_string()],
            requires_entitlement: false,
            timeout_seconds: 30,
            capabilities: PluginCapabilities { text: true, layout: false, ocr: false },
            permissions: vec![PluginPermission::ReadSourceFile],
        }],
        versions_by_id: Vec::new(),
        by_extension: vec![
            ExtensionPlugins {
                extension: ".pdf".to_string(),
                plugin_ids: vec!["sm.plugin.pdf".to_string()],
            },
            ExtensionPlugins {
                extension: ".epub".to_string(),
                plugin_ids: vec!["sm.plugin.epub".to_string()],
            },
        ],
        ignored_paths: vec!["/plugins/pdf".to_string()],
    }
}

#[test]
fn normalizes_meta_path_from_final_to_tmp_and_back() {
    let meta = "/index/docs/report.pdf.sm.meta.tmp";
    let tmp_text = "/index/docs/report.pdf.sm.txt.tmp";
    let final_text = "/index/docs/report.pdf.sm.txt";
    assert!(meta_text_path_needs_rewrite(meta, final_text, tmp_text, Some(final_text)));
    assert!(meta_text_path_needs_rewrite(meta, tmp_text, final_text, Some(tmp_text)));
    assert!(meta_text_path_needs_rewrite(meta, "report.pdf.sm.txt", tmp_text, Some(final_text)));
    assert!(meta_text_path_needs_rewrite(meta, "./sub/../report.pdf.sm.txt.tmp", tmp_text, None));
    assert!(!meta_text_path_needs_rewrite(meta, "./sub/../report.pdf.sm.txt.tmp", final_text, None));
    assert!(!meta_text_path_needs_rewrite(meta, "/elsewhere/report.pdf.sm.txt", final_text, None));
    assert!(!meta_text_path_needs_rewrite(meta, "other.txt", final_text, Some(tmp_text)));
}

#[test]
fn finds_the_plugin_of_a_source_file() {
    let reg = registry();
    let classifier = FileClassifier::new(&reg);
    assert_eq!(plugin_for_source(&classifier, &reg, "/docs/a.PDF").unwrap().id, "sm.plugin.pdf");
    assert_eq!(
        plugin_for_source(&classifier, &reg, "/docs/a.epub").err(),
        Some("plugin sm.plugin.epub is not registered".to_string())
    );
    assert_eq!(
        plugin_for_source(&classifier, &reg, "/docs/a.md").err(),
        Some("source file is not handled by a plugin: NativeText".to_string())
    );
}

#[test]
fn plugin_run_errors_say_what_happened() {
    let ok = PluginExit::Exited { success: true, status: "exit status: 0".to_string() };
    assert_eq!(plugin_run_error(&ok, "noise", 30), None);
    let failed = PluginExit::Exited { success: false, status: "exit status: 2".to_string() };
    assert_eq!(plugin_run_error(&failed, "  \n", 30), Some("plugin exited with status exit status: 2".to_string()));
    assert_eq!(plugin_run_error(&failed, " bad pdf\n", 30), Some("plugin failed: bad pdf".to_string()));
    assert_eq!(
        plugin_run_error(&PluginExit::TimedOut, "", 45),
        Some("plugin timed out after 45 seconds".to_string())
    );
    assert_eq!(
        plugin_run_error(&PluginExit::TimedOut, "stuck", 45),
        Some("plugin timed out after 45 seconds: stuck".to_string())
    );
}

#[test]
fn cache_states_have_names() {
    assert_eq!(cache_status_name(&CacheStatus::Ready), "ready");
    assert_eq!(cache_status_name(&CacheStatus::StaleSourceMtime), "stale_source_mtime");
    assert_eq!(cache_status_name(&CacheStatus::InvalidText), "invalid_text");
}

#[test]
fn explains_failed_output_checks() {
    assert_eq!(
        validation_error(&CacheStatus::InvalidMeta, Some("bad json")),
        "plugin outputs failed validation: invalid_meta (bad json)"
    );
    assert_eq!(
        validation_error(&CacheStatus::MissingText, None),
        "plugin outputs failed validation: missing_text"
    );
}

fn cached_meta(size: u64, mtime: &str, plugin_id: &str, version: &str, length: Option<u64>) -> SmMeta {
    SmMeta {
        schema: "sm.meta.v1".to_string(),
        source: SmSource { path: "/docs/a.pdf".to_string(), size, mtime: mtime.to_string(), hash: None },
        generator: SmGenerator {
            plugin_id: plugin_id.to_string(),
            plugin_version: version.to_string(),
            settings_hash: None,
            engine: None,
        },
        text: SmText {
            path: "/index/docs/a.pdf.sm.txt".to_string(),
            encoding: "utf-8".to_string(),
            length_bytes: length,
            mtime: None,
            hash: None,
            offsets: None,
        },
        ranges: Vec::new(),
        warnings: Vec::new(),
    }
}

#[test]
fn cache_verdicts_follow_the_checks_in_order() {
    let reg = registry();
    let plugin = &reg.by_id[0];
    let m = cached_meta(10, "2026-01-02T03:04:05Z", "sm.plugin.pdf", "0.1.0", Some(7));
    let src = Some((10u64, "2026-01-02T03:04:05Z"));
    assert_eq!(cache_verdict(None, true, Ok(&m), src, Some(plugin)), (CacheStatus::MissingText, None));
    assert_eq!(cache_verdict(Some(7), false, Ok(&m), src, Some(plugin)), (CacheStatus::MissingMeta, None));
    assert_eq!(
        cache_verdict(Some(7), true, Err("bad meta".to_string()), src, Some(plugin)),
        (CacheStatus::InvalidMeta, Some("bad meta".to_string()))
    );
    assert_eq!(cache_verdict(Some(7), true, Ok(&m), None, Some(plugin)), (CacheStatus::StaleSourceSize, None));
    assert_eq!(
        cache_verdict(Some(7), true, Ok(&m), Some((11, "2026-01-02T03:04:05Z")), Some(plugin)),
        (CacheStatus::StaleSourceSize, None)
    );
    assert_eq!(
        cache_verdict(Some(7), true, Ok(&m), Some((10, "2026-01-02T03:04:06Z")), Some(plugin)),
        (CacheStatus::StaleSourceMtime, None)
    );
    // the same instant written with another offset
    assert_eq!(
        cache_verdict(Some(7), true, Ok(&m), Some((10, "2026-01-02T04:04:05+01:00")), Some(plugin)),
        (CacheStatus::Ready, None)
    );
    let old = cached_meta(10, "2026-01-02T03:04:05Z", "sm.plugin.pdf", "0.0.9", Some(7));
    assert_eq!(cache_verdict(Some(7), true, Ok(&old), src, Some(plugin)), (CacheStatus::StalePlugin, None));
    assert_eq!(cache_verdict(Some(7), true, Ok(&old), src, None), (CacheStatus::Ready, None));
    let other = cached_meta(10, "2026-01-02T03:04:05Z", "sm.plugin.ocr", "0.1.0", Some(7));
    assert_eq!(cache_verdict(Some(7), true, Ok(&other), src, Some(plugin)), (CacheStatus::StalePlugin, None));
    assert_eq!(
        cache_verdict(Some(8), true, Ok(&m), src, Some(plugin)),
        (CacheStatus::InvalidText, Some("text length does not match".to_string()))
    );
    assert_eq!(cache_verdict(Some(7), true, Ok(&m), src, Some(plugin)), (CacheStatus::Ready, None));
}

#[test]
fn meta_text_paths_are_rewritten_in_the_document() {
    let doc = r#"{"schema":"sm.meta.v1","text":{"path":"/tmp/out.sm.txt.tmp","encoding":"utf-8"}}"#;
    let out = rewritten_meta_text(doc, "/tmp/out.sm.meta.tmp", "/index/a.pdf.sm.txt", Some("/tmp/out.sm.txt.tmp"))
        .unwrap()
        .unwrap();
    let value: serde_json::Value = serde_json::from_str(&out).unwrap();
    assert_eq!(value["text"]["path"], "/index/a.pdf.sm.txt");
    assert_eq!(value["text"]["encoding"], "utf-8");
    assert_eq!(value["schema"], "sm.meta.v1");
    assert!(out.contains('\n'));

    let kept = r#"{"text":{"path":"/elsewhere/other.txt"}}"#;
    assert_eq!(rewritten_meta_text(kept, "/tmp/m.sm.meta.tmp", "/index/a.pdf.sm.txt", None), Ok(None));
    assert_eq!(
        rewritten_meta_text("not json", "/tmp/m", "/index/a.pdf.sm.txt", None),
        Err("failed parsing plugin meta output /tmp/m".to_string())
    );
    assert_eq!(
        rewritten_meta_text(r#"{"text":3}"#, "/tmp/m", "/index/a.pdf.sm.txt", None),
        Err("plugin meta output is missing text object".to_string())
    );
    assert_eq!(
        rewritten_meta_text(r#"[1]"#, "/tmp/m", "/index/a.pdf.sm.txt", None),
        Err("plugin meta output is missing text object".to_string())
    );
    assert_eq!(
        rewritten_meta_text(r#"{"text":{"path":5}}"#, "/tmp/m", "/index/a.pdf.sm.txt", None),
        Err("plugin meta output is missing text.path".to_string())
    );
}

#[test]
fn meta_documents_round_trip_through_the_temporary_path() {
    let meta = "/index/docs/report.pdf.sm.meta.tmp";
    let tmp_text = "/index/docs/report.pdf.sm.txt.tmp";
    let final_text = "/index/docs/report.pdf.sm.txt";
    let doc = r#"{"schema":"sm.meta.v1","text":{"path":"/index/docs/report.pdf.sm.txt","encoding":"utf-8"}}"#;
    let to_tmp = rewritten_meta_text(doc, meta, tmp_text, Some(final_text)).unwrap().unwrap();
    let value: serde_json::Value = serde_json::from_str(&to_tmp).unwrap();
    assert_eq!(value["text"]["path"], tmp_text);
    let back = rewritten_meta_text(&to_tmp, meta, final_text, Some(tmp_text)).unwrap().unwrap();
    let value: serde_json::Value = serde_json::from_str(&back).unwrap();
    assert_eq!(value["text"]["path"], final_text);
    assert_eq!(value["text"]["encoding"], "utf-8");
    assert_eq!(value["schema"], "sm.meta.v1");
}
