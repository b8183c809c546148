use searchmonkey::index_paths::{
    default_state_db_path_for, mirror_file_path_for, mirror_relative_path_for, mirror_search_path_for, mirror_text_path,
    mirror_text_path_for, source_path_from_mirror_text_path_for,
    source_path_from_mirror_text_path_with_root_for,
};
use searchmonkey::state_db::StateDb;
use searchmonkey::winpath::{win_components, PathStyle, WinPrefix};

#[test]
fn maps_verbatim_windows_source_paths_under_index_root() {
    let root = r"C:\Users\acottrell\AppData\Roaming\Searchmonkey-3\index";
    let source = r"\\?\C:\Users\acottrell\Downloads\valid.pdf";

    assert_eq!(
        mirror_text_path_for(PathStyle::Windows, root, source),
        r"C:\Users\acottrell\AppData\Roaming\Searchmonkey-3\index\C\Users\acottrell\Downloads\valid.pdf.sm.txt"
    );
}

#[test]
fn windows_prefixes_become_names_under_the_mirror() {
    assert_eq!(mirror_relative_path_for(PathStyle::Windows, r"c:\x\y.pdf"), r"C\x\y.pdf");
    assert_eq!(mirror_relative_path_for(PathStyle::Windows, "C:/a/./b.txt"), r"C\a\b.txt");
    assert_eq!(
        mirror_relative_path_for(PathStyle::Windows, r"\\server\share\dir\a.txt"),
        r"UNC_server_share\dir\a.txt"
    );
    assert_eq!(
        mirror_relative_path_for(PathStyle::Windows, r"\\?\UNC\srv\docs\a.txt"),
        r"UNC_srv_docs\a.txt"
    );
    assert_eq!(
        mirror_relative_path_for(PathStyle::Windows, r"\\?\pics\a.png"),
        r"VERBATIM_pics\a.png"
    );
    assert_eq!(
        mirror_relative_path_for(PathStyle::Windows, r"\\.\COM42\x"),
        r"DEVICE_COM42\x"
    );
    assert_eq!(mirror_relative_path_for(PathStyle::Windows, r"\dir\..\a.txt"), r"dir\..\a.txt");
    assert_eq!(mirror_relative_path_for(PathStyle::Unix, r"C:\x\y.pdf"), r"C:\x\y.pdf");
}

#[test]
fn windows_paths_are_read_into_prefix_and_components() {
    let p = win_components(r"\\?\C:\Users\a.pdf");
    assert!(matches!(p.prefix, Some(WinPrefix::VerbatimDisk('C'))));
    assert_eq!(p.prefix_text.iter().collect::<String>(), r"\\?\C:");
    assert_eq!(p.comps.len(), 3);
    let q = win_components(r"\\server");
    assert!(q.prefix.is_none());
    assert_eq!(q.comps.len(), 2);
    let u = win_components(r"\\server\share");
    assert!(matches!(u.prefix, Some(WinPrefix::UNC(_, _))));
    assert_eq!(u.comps.len(), 1);
}

#[test]
fn windows_mirror_files_and_search_directories() {
    assert_eq!(
        mirror_file_path_for(PathStyle::Windows, r"D:\index", r"C:\docs\a.pdf", ".sm.meta"),
        r"D:\index\C\docs\a.pdf.sm.meta"
    );
    assert_eq!(
        mirror_search_path_for(PathStyle::Windows, r"D:\index", r"C:\docs"),
        r"D:\index\C\docs"
    );
    assert_eq!(
        mirror_search_path_for(PathStyle::Windows, r"D:\index", r"\\nas\share\docs"),
        r"D:\index\UNC_nas_share\docs"
    );
    assert_eq!(
        mirror_text_path_for(PathStyle::Unix, "/index", "/a/b.pdf"),
        "/index/a/b.pdf.sm.txt"
    );
    assert_eq!(mirror_text_path("/index", "/a/b.pdf"), "/index/a/b.pdf.sm.txt");
}

#[test]
fn recovers_windows_source_path_from_mirror_text_path() {
    let root = r"C:\Users\acottrell\AppData\Roaming\Searchmonkey-3\index";
    let text =
        r"C:\Users\acottrell\AppData\Roaming\Searchmonkey-3\index\C\Users\acottrell\Downloads\valid.pdf.sm.txt";
    assert_eq!(
        source_path_from_mirror_text_path_with_root_for(PathStyle::Windows, text, root).as_deref(),
        Some(r"C:\Users\acottrell\Downloads\valid.pdf")
    );
    assert_eq!(
        source_path_from_mirror_text_path_with_root_for(PathStyle::Windows, text, r"D:\index"),
        None
    );
    assert_eq!(
        source_path_from_mirror_text_path_with_root_for(PathStyle::Windows, r"c:\index\C\a.txt", r"C:\index"),
        None
    );
    let roots = vec![r"D:\other".to_string(), root.to_string()];
    assert_eq!(
        source_path_from_mirror_text_path_for(PathStyle::Windows, text, &roots).as_deref(),
        Some(r"C:\Users\acottrell\Downloads\valid.pdf")
    );
    assert_eq!(
        source_path_from_mirror_text_path_for(PathStyle::Windows, r"E:\x.sm.txt", &roots),
        None
    );
}

#[test]
fn windows_state_database_sits_beside_the_index_root() {
    assert_eq!(
        default_state_db_path_for(
            PathStyle::Windows,
            &vec![r"C:\Users\u\AppData\Roaming\Searchmonkey-3\index".to_string()]
        )
        .as_deref(),
        Some(r"C:\Users\u\AppData\Roaming\Searchmonkey-3\searchmonkey.sqlite")
    );
    assert_eq!(default_state_db_path_for(PathStyle::Windows, &vec![r"C:\".to_string()]), None);
    let db = StateDb::new_for(PathStyle::Windows, &vec![r"D:\index".to_string()], &Vec::new()).unwrap();
    assert_eq!(db.path(), r"D:\index\searchmonkey.sqlite");
    let db = StateDb::new_for(PathStyle::Unix, &vec!["/data/index".to_string()], &Vec::new()).unwrap();
    assert_eq!(db.path(), "/data/index/searchmonkey.sqlite");
}
