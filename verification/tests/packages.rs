use searchmonkey::installer::{
    check_package_extension, detect_package_root, install_dir_for, safe_entry_path,
};

#[test]
fn archive_entry_names_are_checked() {
    assert_eq!(safe_entry_path("pdf/./bin/run"), Ok("pdf/bin/run".to_string()));
    assert_eq!(
        safe_entry_path("/etc/passwd"),
        Err("plugin archive contains an absolute path".to_string())
    );
    assert_eq!(
        safe_entry_path("pdf/../../evil"),
        Err("plugin archive contains an invalid path".to_string())
    );
    assert_eq!(safe_entry_path("./"), Err("plugin archive contains an empty path".to_string()));
}

#[test]
fn package_root_is_the_manifest_directory() {
    let tmp = "/tmp/unpack";
    assert_eq!(
        detect_package_root(tmp, &vec!["/tmp/unpack/plugin.toml".to_string()]),
        Ok("/tmp/unpack".to_string())
    );
    assert_eq!(
        detect_package_root(tmp, &vec!["/tmp/unpack/sm.plugin.pdf/plugin.toml".to_string()]),
        Ok("/tmp/unpack/sm.plugin.pdf".to_string())
    );
    assert_eq!(
        detect_package_root(tmp, &vec!["/tmp/unpack/a/b/plugin.toml".to_string()]),
        Err("plugin archive must unpack to a single plugin directory".to_string())
    );
    assert_eq!(
        detect_package_root(tmp, &Vec::new()),
        Err("plugin archive does not contain plugin.toml".to_string())
    );
    assert_eq!(
        detect_package_root(
            tmp,
            &vec!["/tmp/unpack/a/plugin.toml".to_string(), "/tmp/unpack/b/plugin.toml".to_string()]
        ),
        Err("plugin archive must contain exactly one plugin.toml".to_string())
    );
}

#[test]
fn packages_need_the_smplugin_extension() {
    assert_eq!(check_package_extension("/dl/pdf-1.0.smplugin"), Ok(()));
    assert_eq!(
        check_package_extension("/dl/pdf-1.0.zip"),
        Err("plugin package must use the .smplugin extension".to_string())
    );
    assert!(check_package_extension("/dl/.smplugin").is_err());
    assert_eq!(install_dir_for("/plugins", "sm.plugin.pdf", "1.2.3"), "/plugins/sm.plugin.pdf/1.2.3");
}
