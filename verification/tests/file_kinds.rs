use searchmonkey::classifier::{
    is_sm_text, is_sm_text_for, meta_for_sm_text, sibling_of_sm_text_for, source_for_sm_text,
    FileClassifier, FileKind,
};
use searchmonkey::winpath::PathStyle;
use searchmonkey::registry::{ExtensionPlugins, PluginRegistry};

fn registry(extensions: Vec<ExtensionPlugins>, ignored: &[&str]) -> PluginRegistry {
    PluginRegistry {
        by_id: Vec::new(),
        versions_by_id: Vec::new(),
        by_extension: extensions,
        ignored_paths: ignored.iter().map(|p| p.to_string()).collect(),
    }
}

#[test]
fn classifies_generated_files_and_plugin_supported_sources() {
    let registry = registry(
        vec![ExtensionPlugins {
            extension: ".pdf".to_string(),
            plugin_ids: vec!["sm.plugin.pdf".to_string()],
        }],
        &["/plugins/sm.plugin.pdf"],
    );
    let classifier = FileClassifier::new(&registry);

    assert_eq!(classifier.classify("/docs/report.pdf.sm.txt"), FileKind::GeneratedSmText);
    assert_eq!(classifier.classify("/docs/report.pdf.sm.meta"), FileKind::SmMeta);
    assert_eq!(
        classifier.classify("/docs/report.pdf"),
        FileKind::SupportedByPlugin {
            plugin_id: "sm.plugin.pdf".to_string()
        }
    );
    assert_eq!(classifier.classify("/docs/readme.md"), FileKind::NativeText);
}

#[test]
fn classifies_plugin_internal_files() {
    let registry = registry(Vec::new(), &["/plugins/sm.plugin.pdf"]);
    let classifier = FileClassifier::new(&registry);

    assert_eq!(
        classifier.classify("/plugins/sm.plugin.pdf/plugin.toml"),
        FileKind::PluginManifest
    );
    assert_eq!(
        classifier.classify("/plugins/sm.plugin.pdf/bin/linux-x64/sm-plugin-pdf"),
        FileKind::PluginBinary
    );
    assert_eq!(
        classifier.classify("/plugins/sm.plugin.pdf/licenses/POPPLER.txt"),
        FileKind::Ignored
    );
}

#[test]
fn maps_sm_text_back_to_source_and_meta() {
    let path = "/docs/report.pdf.sm.txt";
    assert!(is_sm_text(path));
    assert_eq!(source_for_sm_text(path).unwrap(), "/docs/report.pdf");
    assert_eq!(meta_for_sm_text(path).unwrap(), "/docs/report.pdf.sm.meta");
}

#[test]
fn classifies_other_files() {
    let registry = registry(Vec::new(), &[]);
    let classifier = FileClassifier::new(&registry);
    assert_eq!(classifier.classify("/docs/a.sm.txt.tmp"), FileKind::Ignored);
    assert_eq!(classifier.classify("/docs/image.PNG"), FileKind::UnsupportedBinary);
    assert_eq!(classifier.classify("/docs/NOTES.MD"), FileKind::NativeText);
    assert_eq!(classifier.classify("/docs/Makefile"), FileKind::NativeText);
    assert_eq!(classifier.classify("/docs/.."), FileKind::Ignored);
    assert!(classifier.is_searchable("/docs/main.rs"));
    assert!(!classifier.is_searchable("/docs/a.sm.meta"));
    let custom =
        FileClassifier::with_known_text_extensions(&registry, vec!["PNG".to_string()]);
    assert_eq!(custom.classify("/docs/image.png"), FileKind::NativeText);
    assert_eq!(custom.classify("/docs/readme.md"), FileKind::UnsupportedBinary);
    assert!(!is_sm_text("/docs/readme.md"));
    assert_eq!(source_for_sm_text("/docs/readme.md"), None);
}

#[test]
fn classifies_windows_paths() {
    let registry = registry(
        vec![ExtensionPlugins {
            extension: ".pdf".to_string(),
            plugin_ids: vec!["sm.plugin.pdf".to_string()],
        }],
        &[r"C:\Users\u\AppData\Roaming\Searchmonkey-3\plugins\sm.plugin.pdf"],
    );
    let classifier = FileClassifier::new(&registry).with_path_style(PathStyle::Windows);
    assert_eq!(
        classifier.classify(r"C:\my.docs\report.PDF"),
        FileKind::SupportedByPlugin { plugin_id: "sm.plugin.pdf".to_string() }
    );
    assert_eq!(classifier.classify(r"C:\my.docs\notes"), FileKind::NativeText);
    assert_eq!(classifier.classify(r"D:\index\C\docs\a.pdf.sm.txt"), FileKind::GeneratedSmText);
    assert_eq!(
        classifier.classify(r"c:\Users\u\AppData\Roaming\Searchmonkey-3\plugins\sm.plugin.pdf\plugin.toml"),
        FileKind::PluginManifest
    );
    assert_eq!(
        classifier.classify(r"C:\Users\u\AppData\Roaming\Searchmonkey-3\plugins\sm.plugin.pdf\bin\run.exe"),
        FileKind::PluginBinary
    );
    let unix = FileClassifier::new(&registry).with_path_style(PathStyle::Unix);
    assert_eq!(unix.classify(r"C:\my.docs\notes"), FileKind::UnsupportedBinary);
}

#[test]
fn generated_text_names_are_read_in_the_path_style() {
    assert!(is_sm_text_for(PathStyle::Windows, r"C:\docs\a.pdf.sm.txt\"));
    assert!(!is_sm_text_for(PathStyle::Unix, r"C:\docs\a.pdf.sm.txt\"));
    assert!(is_sm_text_for(PathStyle::Unix, "/docs/a.pdf.sm.txt/"));
    assert_eq!(
        sibling_of_sm_text_for(PathStyle::Windows, r"C:\docs\a.pdf.sm.txt", ".sm.meta").as_deref(),
        Some(r"C:\docs\a.pdf.sm.meta")
    );
    assert_eq!(sibling_of_sm_text_for(PathStyle::Windows, r"C:\docs\a.pdf", ""), None);
    let registry = registry(Vec::new(), &[]);
    let plain = FileClassifier::new_in(PathStyle::Unix, &registry);
    let defaults = FileClassifier::with_known_text_extensions_in(
        PathStyle::Unix,
        &registry,
        vec!["md".to_string(), "txt".to_string()],
    );
    assert_eq!(plain.classify("/x/main.rs"), FileKind::NativeText);
    assert_eq!(plain.classify("/x/a.docx"), FileKind::UnsupportedBinary);
    assert_eq!(plain.classify("/x/Makefile"), FileKind::NativeText);
    assert_eq!(defaults.classify("/x/main.rs"), FileKind::UnsupportedBinary);
}
