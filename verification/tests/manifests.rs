use searchmonkey::manifest::{
    current_platform, PluginCapabilities, PluginEntry, PluginEntryKind, PluginManifest,
    PluginPermission, PluginPlatform,
};

fn manifest(handles: &[&str]) -> PluginManifest {
    PluginManifest {
        schema: "sm.plugin.v1".to_string(),
        id: "sm.plugin.pdf".to_string(),
        name: "PDF Plugin".to_string(),
        version: "1.2.3".to_string(),
        description: None,
        developer: None,
        homepage: None,
        handles: handles.iter().map(|h| h.to_string()).collect(),
        entry: PluginEntry {
            kind: PluginEntryKind::Process,
            command: "sm-plugin-pdf".to_string(),
            args: Vec::new(),
        },
        capabilities: PluginCapabilities { text: false, layout: false, ocr: false },
        permissions: Vec::new(),
        requires_entitlement: false,
        timeout_seconds: None,
        platforms: None,
    }
}

#[test]
fn parses_valid_plugin_manifest() {
    let mut manifest = manifest(&[".pdf"]);
    manifest.permissions = vec![PluginPermission::ReadSourceFile, PluginPermission::WriteSmOutputs];
    manifest.timeout_seconds = Some(45);
    manifest.entry.args = vec!["--job".to_string()];
    manifest.capabilities = PluginCapabilities { text: true, layout: true, ocr: false };
    assert!(manifest.validate().is_ok());

    assert_eq!(manifest.entry.kind, PluginEntryKind::Process);
    assert_eq!(manifest.timeout_seconds(), 45);
    assert_eq!(manifest.permissions.len(), 2);
    assert_eq!(manifest.permissions[0], PluginPermission::ReadSourceFile);
}

#[test]
fn rejects_invalid_extension_handle() {
    let error = manifest(&["pdf"]).validate().unwrap_err();
    assert!(error.contains("must match"));
    assert_eq!(error, "plugin handle \"pdf\" must match ^\\.[a-z0-9]+$");
}

#[test]
fn checks_manifest_rules_in_order() {
    let mut m = manifest(&[".pdf"]);
    m.id = "SM Plugin".to_string();
    assert_eq!(m.validate().unwrap_err(), "plugin id must match ^[a-z0-9.-]+$");

    let mut m = manifest(&[".pdf"]);
    m.homepage = Some("not a url".to_string());
    assert_eq!(m.validate().unwrap_err(), "plugin homepage must be a valid URI");

    let mut m = manifest(&[".pdf"]);
    m.homepage = Some("https://searchmonkey.dev/plugins/pdf".to_string());
    assert!(m.validate().is_ok());

    let m = manifest(&[]);
    assert_eq!(m.validate().unwrap_err(), "plugin handles must not be empty");

    let mut m = manifest(&[".pdf"]);
    m.timeout_seconds = Some(0);
    assert_eq!(m.validate().unwrap_err(), "timeout_seconds must be between 1 and 3600");

    let mut m = manifest(&[".pdf"]);
    m.entry.command = " ".to_string();
    assert_eq!(m.validate().unwrap_err(), "entry.command must not be empty");
}

#[test]
fn defaults_and_platforms() {
    let mut m = manifest(&[".pdf"]);
    assert_eq!(m.timeout_seconds(), 300);
    assert!(m.supports_platform(PluginPlatform::WindowsX64));
    m.platforms = Some(vec![PluginPlatform::LinuxX64]);
    assert!(m.supports_platform(PluginPlatform::LinuxX64));
    assert!(!m.supports_platform(PluginPlatform::MacOsArm64));
    assert_eq!(PluginPlatform::MacOsArm64.as_str(), "macos-arm64");
    assert_eq!(current_platform("linux", "aarch64"), Ok(PluginPlatform::LinuxArm64));
    assert_eq!(
        current_platform("plan9", "mips"),
        Err("unsupported plugin platform plan9-mips".to_string())
    );
}
