use searchmonkey::index_paths::{
    default_state_db_path, mirror_failure_state_path, mirror_meta_path, mirror_meta_tmp_path,
    mirror_relative_path, mirror_search_path, mirror_text_path, mirror_text_tmp_path,
    sanitize_component_text, source_path_from_mirror_text_path,
    source_path_from_mirror_text_path_with_root,
};

#[test]
fn maps_unix_source_paths_into_mirror_paths() {
    let root = "/index";
    let source = "/Users/acottrell/sm-test/valid.pdf";

    assert_eq!(
        mirror_text_path(root, source),
        "/index/Users/acottrell/sm-test/valid.pdf.sm.txt"
    );
    assert_eq!(
        mirror_meta_path(root, source),
        "/index/Users/acottrell/sm-test/valid.pdf.sm.meta"
    );
    assert_eq!(
        mirror_text_tmp_path(root, source),
        "/index/Users/acottrell/sm-test/valid.pdf.sm.txt.tmp"
    );
    assert_eq!(
        mirror_meta_tmp_path(root, source),
        "/index/Users/acottrell/sm-test/valid.pdf.sm.meta.tmp"
    );
    assert_eq!(
        mirror_failure_state_path(root, source),
        "/index/Users/acottrell/sm-test/valid.pdf.sm.state"
    );
    assert_eq!(
        mirror_search_path(root, "/Users/acottrell/sm-test"),
        "/index/Users/acottrell/sm-test"
    );
}

#[test]
fn recovers_unix_source_path_from_mirror_text_path() {
    let root = "/index";
    let text = "/index/Users/acottrell/sm-test/valid.pdf.sm.txt";

    assert_eq!(
        source_path_from_mirror_text_path_with_root(text, root).unwrap(),
        "/Users/acottrell/sm-test/valid.pdf"
    );
}

#[test]
fn mirror_round_trip_on_a_concrete_path() {
    let root = "/home/u/.local/share/searchmonkey-3/index";
    let source = "/srv/data/../docs/report.final.pdf";
    let text = mirror_text_path(root, source);
    assert_eq!(
        text,
        "/home/u/.local/share/searchmonkey-3/index/srv/data/../docs/report.final.pdf.sm.txt"
    );
    assert_eq!(
        source_path_from_mirror_text_path_with_root(&text, root).as_deref(),
        Some(source)
    );
}

#[test]
fn mirror_edge_cases() {
    assert_eq!(mirror_relative_path("/a/./b/../c"), "a/b/../c");
    assert_eq!(mirror_relative_path("./x"), "x");
    assert_eq!(
        source_path_from_mirror_text_path_with_root("/elsewhere/a.sm.txt", "/index"),
        None
    );
    assert_eq!(
        source_path_from_mirror_text_path_with_root("/index/a.txt", "/index"),
        None
    );
    let roots = vec!["/other".to_string(), "/index".to_string()];
    assert_eq!(
        source_path_from_mirror_text_path("/index/x/y.pdf.sm.txt", &roots).as_deref(),
        Some("/x/y.pdf")
    );
    assert_eq!(source_path_from_mirror_text_path("/nowhere/y.sm.txt", &roots), None);
    assert_eq!(
        default_state_db_path(&vec!["/home/u/.local/share/searchmonkey-3/index".to_string()])
            .as_deref(),
        Some("/home/u/.local/share/searchmonkey-3/searchmonkey.sqlite")
    );
    assert_eq!(default_state_db_path(&vec!["/".to_string()]), None);
    assert_eq!(default_state_db_path(&Vec::new()), None);
    assert_eq!(sanitize_component_text(r"C:\a/b"), "C__a_b");
}
