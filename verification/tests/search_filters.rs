use searchmonkey::registry::{ExtensionPlugins, PluginRegistry};
use searchmonkey::winpath::PathStyle;
use searchmonkey::search_filter::SearchFilter;

fn registry(extensions: &[&str], ignored: &[&str]) -> PluginRegistry {
    PluginRegistry {
        by_id: Vec::new(),
        versions_by_id: Vec::new(),
        by_extension: extensions
            .iter()
            .map(|e| ExtensionPlugins {
                extension: e.to_string(),
                plugin_ids: vec!["sm.plugin.x".to_string()],
            })
            .collect(),
        ignored_paths: ignored.iter().map(|p| p.to_string()).collect(),
    }
}

#[test]
fn builds_expected_excludes() {
    let registry = PluginRegistry {
        by_id: Vec::new(),
        versions_by_id: Vec::new(),
        by_extension: vec![ExtensionPlugins {
            extension: ".pdf".to_string(),
            plugin_ids: vec!["sm.plugin.pdf".to_string()],
        }],
        ignored_paths: vec!["/home/user/.config/searchmonkey-3/plugins/sm.plugin.pdf".to_string()],
    };

    let filter = SearchFilter::for_search_root("/home/user", &registry);
    let excludes = filter.exclude_globs();

    assert!(excludes.contains(&"!**/*.sm.meta".to_string()));
    assert!(excludes.contains(&"!**/*".to_string()) == false);
    assert!(excludes.contains(&"!**/*.pdf".to_string()));
    assert!(excludes.contains(&"!.config/searchmonkey-3/plugins/sm.plugin.pdf/**".to_string()));
}

#[test]
fn excludes_come_in_sorted_order() {
    let registry = registry(&[".pdf", ".docx", ".epub"], &["/r/zeta", "/r/alpha", "/elsewhere/x"]);
    let filter = SearchFilter::for_search_root("/r", &registry);
    assert_eq!(
        filter.exclude_globs().to_vec(),
        vec![
            "!**/*.sm.meta",
            "!**/*.sm.txt.tmp",
            "!**/*.sm.meta.tmp",
            "!**/plugin.toml",
            "!**/*.docx",
            "!**/*.epub",
            "!**/*.pdf",
            "!alpha/**",
            "!zeta/**",
        ]
    );
}

#[test]
fn the_root_itself_is_not_excluded() {
    let registry = registry(&[], &["/r", "/r/"]);
    let filter = SearchFilter::for_search_root("/r", &registry);
    assert_eq!(filter.exclude_globs().len(), 4);
}

#[test]
fn applies_globs_after_existing_arguments() {
    let registry = registry(&[".pdf"], &[]);
    let filter = SearchFilter::for_search_root("/", &registry);
    let mut args = vec!["--json".to_string()];
    filter.apply_to_args(&mut args);
    assert_eq!(args.len(), 1 + 2 * 5);
    assert_eq!(args[0], "--json");
    assert_eq!(args[1], "--glob");
    assert_eq!(args[2], "!**/*.sm.meta");
    assert_eq!(args[9], "--glob");
    assert_eq!(args[10], "!**/*.pdf");
}

#[test]
fn plugin_folders_are_excluded_in_path_order() {
    let registry = PluginRegistry {
        by_id: Vec::new(),
        versions_by_id: Vec::new(),
        by_extension: Vec::new(),
        ignored_paths: vec!["/r/a-c".to_string(), "/r/a/b".to_string()],
    };
    let filter = SearchFilter::for_search_root("/r", &registry);
    let globs = filter.exclude_globs();
    assert_eq!(globs[4], "!a/b/**");
    assert_eq!(globs[5], "!a-c/**");
    assert_eq!(globs.len(), 6);
}

#[test]
fn windows_plugin_folders_are_excluded_relative_to_the_search_root() {
    let registry = PluginRegistry {
        by_id: Vec::new(),
        versions_by_id: Vec::new(),
        by_extension: Vec::new(),
        ignored_paths: vec![
            r"C:\Users\u\plugins-x".to_string(),
            r"C:\Users\u\plugins\pdf".to_string(),
            r"D:\elsewhere\ocr".to_string(),
        ],
    };
    let filter = SearchFilter::for_search_root_in(PathStyle::Windows, r"c:\Users", &registry);
    assert_eq!(
        filter.exclude_globs()[4..].to_vec(),
        vec!["!u/plugins/pdf/**".to_string(), "!u/plugins-x/**".to_string()]
    );
    let unix = SearchFilter::for_search_root_in(PathStyle::Unix, r"c:\Users", &registry);
    assert_eq!(unix.exclude_globs().len(), 4);
}
