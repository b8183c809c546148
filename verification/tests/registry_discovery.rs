use searchmonkey::manifest::{
    PluginCapabilities, PluginEntry, PluginEntryKind, PluginManifest, PluginPlatform,
};
use searchmonkey::registry::{
    plugin_command_paths, plugin_dir_of, PluginCandidate, PluginRegistry, PreferredVersion,
};
use searchmonkey::versions::{plugin_version_cmp, plugin_version_satisfies_selected};
use std::cmp::Ordering;

fn manifest(version: &str, requires_entitlement: bool) -> PluginManifest {
    PluginManifest {
        schema: "sm.plugin.v1".to_string(),
        id: "sm.plugin.pdf".to_string(),
        name: "PDF Plugin".to_string(),
        version: version.to_string(),
        description: None,
        developer: None,
        homepage: None,
        handles: vec![".pdf".to_string()],
        entry: PluginEntry {
            kind: PluginEntryKind::Process,
            command: "sm-plugin-pdf".to_string(),
            args: vec!["--job".to_string()],
        },
        capabilities: PluginCapabilities { text: false, layout: false, ocr: false },
        permissions: Vec::new(),
        requires_entitlement,
        timeout_seconds: None,
        platforms: None,
    }
}

fn candidate(dir: &str, manifest: PluginManifest, binary: bool) -> PluginCandidate {
    PluginCandidate {
        plugin_root: "/tmp/plugins".to_string(),
        manifest_path: format!("/tmp/plugins/{dir}/plugin.toml"),
        manifest: Ok(manifest),
        flat_command_is_file: binary,
        platform_command_is_file: false,
    }
}

#[test]
fn discovers_compatible_plugin_and_indexes_by_extension() {
    let candidates = vec![candidate("sm.plugin.pdf/0.1.0", manifest("1.2.3", true), true)];
    let report = PluginRegistry::discover_for_platform(&candidates, PluginPlatform::LinuxX64);

    assert!(report.issues.is_empty());
    let plugin = report.registry.by_id.iter().find(|p| p.id == "sm.plugin.pdf").unwrap();
    assert_eq!(plugin.handles, vec![".pdf"]);
    assert!(plugin.requires_entitlement);
    let pdf = report.registry.by_extension.iter().find(|e| e.extension == ".pdf").unwrap();
    assert_eq!(&pdf.plugin_ids, &vec!["sm.plugin.pdf".to_string()]);
    assert!(report
        .registry
        .ignored_paths
        .contains(&"/tmp/plugins/sm.plugin.pdf/0.1.0".to_string()));
    assert_eq!(plugin.command, "/tmp/plugins/sm.plugin.pdf/0.1.0/bin/sm-plugin-pdf");
    assert_eq!(plugin.timeout_seconds, 300);
}

#[test]
fn prefers_newest_semver_for_duplicate_plugin_ids() {
    let candidates = vec![
        candidate("sm.plugin.pdf/0.1.0", manifest("0.1.0", false), true),
        candidate("sm.plugin.pdf/0.1.1", manifest("0.1.1", false), true),
    ];
    let report = PluginRegistry::discover_for_platform(&candidates, PluginPlatform::LinuxX64);

    let plugin = report.registry.by_id.iter().find(|p| p.id == "sm.plugin.pdf").unwrap();
    assert_eq!(plugin.version, "0.1.1");
    assert_eq!(plugin.root_dir, "/tmp/plugins/sm.plugin.pdf/0.1.1");
}

#[test]
fn records_issue_for_missing_binary() {
    let candidates = vec![candidate("sm.plugin.pdf/0.1.0", manifest("1.2.3", false), false)];
    let report = PluginRegistry::discover_for_platform(&candidates, PluginPlatform::LinuxX64);

    assert!(report.registry.by_id.is_empty());
    assert_eq!(report.issues.len(), 1);
    assert!(report.issues[0].message.contains("missing"));
    assert_eq!(
        report.issues[0].message,
        "plugin entry binary is missing at /tmp/plugins/sm.plugin.pdf/0.1.0/bin/sm-plugin-pdf or /tmp/plugins/sm.plugin.pdf/0.1.0/bin/linux-x64/sm-plugin-pdf"
    );
}

#[test]
fn preferred_version_wins_when_installed() {
    let candidates = vec![
        candidate("sm.plugin.pdf/0.1.10", manifest("0.1.10", false), true),
        candidate("sm.plugin.pdf/0.1.9", manifest("0.1.9", false), true),
        candidate("sm.plugin.pdf/0.2.0", manifest("0.2.0", false), true),
    ];
    let prefs = vec![PreferredVersion {
        plugin_id: "sm.plugin.pdf".to_string(),
        version: "0.1.9".to_string(),
    }];
    let report = PluginRegistry::discover_for_platform_with_preferences(
        &candidates,
        PluginPlatform::LinuxX64,
        &prefs,
    );
    assert_eq!(report.registry.by_id[0].version, "0.1.9");
    let versions: Vec<&str> =
        report.registry.versions_by_id[0].versions.iter().map(|p| p.version.as_str()).collect();
    assert_eq!(versions, vec!["0.2.0", "0.1.10", "0.1.9"]);

    let missing = vec![PreferredVersion {
        plugin_id: "sm.plugin.pdf".to_string(),
        version: "9.9.9".to_string(),
    }];
    let report = PluginRegistry::discover_for_platform_with_preferences(
        &candidates,
        PluginPlatform::LinuxX64,
        &missing,
    );
    assert_eq!(report.registry.by_id[0].version, "0.2.0");
}

#[test]
fn reports_manifest_problems_and_platforms() {
    let mut other_platform = manifest("1.0.0", false);
    other_platform.platforms = Some(vec![PluginPlatform::WindowsX64]);
    let mut bad = manifest("1.0.0", false);
    bad.name = "".to_string();
    let unreadable = PluginCandidate {
        plugin_root: "/tmp/plugins".to_string(),
        manifest_path: "/tmp/plugins/broken/plugin.toml".to_string(),
        manifest: Err("failed to parse plugin.toml as TOML".to_string()),
        flat_command_is_file: false,
        platform_command_is_file: false,
    };
    let candidates = vec![
        candidate("a", other_platform, true),
        candidate("b", bad, true),
        unreadable,
    ];
    let report = PluginRegistry::discover_for_platform(&candidates, PluginPlatform::LinuxX64);
    assert_eq!(report.issues.len(), 3);
    assert_eq!(report.issues[0].message, "plugin does not support platform linux-x64");
    assert_eq!(report.issues[1].message, "plugin name must not be empty");
    assert_eq!(report.issues[2].message, "failed to parse plugin.toml as TOML");
    assert_eq!(report.issues[2].manifest_path, "/tmp/plugins/broken/plugin.toml");
    assert_eq!(report.registry.ignored_paths.len(), 3);
}

#[test]
fn platform_binary_is_used_when_no_flat_one() {
    let c = PluginCandidate {
        plugin_root: "/tmp/plugins".to_string(),
        manifest_path: "/tmp/plugins/pdf/plugin.toml".to_string(),
        manifest: Ok(manifest("1.0.0", false)),
        flat_command_is_file: false,
        platform_command_is_file: true,
    };
    let report = PluginRegistry::discover_for_platform(&vec![c], PluginPlatform::MacOsArm64);
    assert_eq!(report.registry.by_id[0].command, "/tmp/plugins/pdf/bin/macos-arm64/sm-plugin-pdf");
    assert_eq!(
        report.registry.plugin_for_extension(".pdf").map(|p| p.id.clone()),
        Some("sm.plugin.pdf".to_string())
    );
    assert!(report.registry.plugin_for_extension(".txt").is_none());
}

#[test]
fn discover_checks_the_host_platform() {
    let candidates = vec![candidate("pdf", manifest("1.0.0", false), true)];
    assert!(PluginRegistry::discover(&candidates, "linux", "x86_64").is_ok());
    assert_eq!(
        PluginRegistry::discover(&candidates, "haiku", "x86").err(),
        Some("unsupported plugin platform haiku-x86".to_string())
    );
}

#[test]
fn command_and_directory_paths() {
    assert_eq!(plugin_dir_of("/r", "/r/p/1.0/plugin.toml"), "/r/p/1.0");
    assert_eq!(plugin_dir_of("/r", "/"), "/r");
    let (flat, plat) = plugin_command_paths("/r/p", "run", PluginPlatform::LinuxArm64);
    assert_eq!(flat, "/r/p/bin/run");
    assert_eq!(plat, "/r/p/bin/linux-arm64/run");
}

#[test]
fn versions_compare_by_semver_then_text() {
    assert_eq!(plugin_version_cmp("0.1.10", "0.1.9"), Ordering::Greater);
    assert_eq!(plugin_version_cmp("1.0.0", "1.0.0"), Ordering::Equal);
    assert_eq!(plugin_version_cmp("1.0.0-beta", "1.0.0"), Ordering::Less);
    assert_eq!(plugin_version_cmp("abc", "abd"), Ordering::Less);
    assert_eq!(plugin_version_cmp("10", "9"), Ordering::Less);
    assert!(plugin_version_satisfies_selected("0.1.0", "0.2.0"));
    assert!(!plugin_version_satisfies_selected("0.2.0", "0.1.0"));
    assert!(plugin_version_satisfies_selected("beta", "beta"));
    assert!(!plugin_version_satisfies_selected("beta", "gamma"));
}

#[test]
fn version_lists_come_newest_first() {
    let candidates = vec![
        candidate("sm.plugin.pdf/b", manifest("beta", false), true),
        candidate("sm.plugin.pdf/a", manifest("alpha", false), true),
        candidate("sm.plugin.pdf/g", manifest("gamma", false), true),
        candidate("sm.plugin.pdf/d", manifest("delta", false), true),
    ];
    let report = PluginRegistry::discover_for_platform(&candidates, PluginPlatform::LinuxX64);
    let versions: Vec<&str> =
        report.registry.versions_by_id[0].versions.iter().map(|p| p.version.as_str()).collect();
    assert_eq!(versions, vec!["gamma", "delta", "beta", "alpha"]);
    assert_eq!(report.registry.by_id[0].version, "gamma");
}
