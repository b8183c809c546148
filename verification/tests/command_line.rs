use searchmonkey::cli::{parse, parse_in, push_raw_exec, CliAction, CliLaunchRequest};
use searchmonkey::winpath::PathStyle;

fn args(list: &[&str]) -> Vec<String> {
    list.iter().map(|value| value.to_string()).collect()
}

fn launch(list: &[&str]) -> CliLaunchRequest {
    match parse(args(list), "/work").unwrap() {
        CliAction::Launch(Some(request)) => request,
        _ => panic!("expected launch request"),
    }
}

#[test]
fn path_only_populates_without_starting() {
    let request = launch(&["searchmonkey", "--path", "docs"]);
    assert_eq!(request.path.as_deref(), Some("/work/docs"));
    assert_eq!(request.query, None);
    assert!(!request.start);
}

#[test]
fn parses_rg_style_search_options() {
    let request = launch(&[
        "searchmonkey",
        "TODO|FIXME",
        "-p",
        "/src",
        "-F",
        "-s",
        "-g",
        "*.rs",
        "-g",
        "!target/**",
        "-H",
        "-L",
        "-C",
        "3",
        "--no-ignore",
    ]);
    assert_eq!(request.query.as_deref(), Some("TODO|FIXME"));
    assert_eq!(request.path.as_deref(), Some("/src"));
    assert!(!request.regex);
    assert!(request.case_sensitive);
    assert_eq!(request.globs, ["*.rs", "!target/**"]);
    assert_eq!(request.context_lines, Some(3));
    assert!(request.start);
}

#[test]
fn no_start_overrides_pattern_auto_start() {
    assert!(!launch(&["searchmonkey", "needle", "--no-start"]).start);
}

#[test]
fn rejects_unknown_options_and_extra_patterns() {
    assert!(parse(args(&["searchmonkey", "--wat"]), "/work").is_err());
    assert!(parse(args(&["searchmonkey", "one", "two"]), "/work").is_err());
}

#[test]
fn no_arguments_launches_without_request() {
    assert_eq!(parse(args(&["searchmonkey"]), "/work"), Ok(CliAction::Launch(None)));
}

#[test]
fn help_and_version_print_text() {
    match parse(args(&["searchmonkey", "-h"]), "/work").unwrap() {
        CliAction::Print(text) => assert!(text.starts_with("Searchmonkey III\n\nUsage:")),
        _ => panic!("expected help text"),
    }
    assert_eq!(
        parse(args(&["searchmonkey", "--version"]), "/work"),
        Ok(CliAction::Print("searchmonkey 0.1.0".to_string()))
    );
}

#[test]
fn option_values_are_required() {
    assert_eq!(
        parse(args(&["searchmonkey", "--glob"]), "/work"),
        Err("option --glob requires a value".to_string())
    );
}

#[test]
fn context_count_is_checked() {
    assert_eq!(
        parse(args(&["searchmonkey", "-C", "21"]), "/work"),
        Err("context line count cannot exceed 20".to_string())
    );
    assert_eq!(
        parse(args(&["searchmonkey", "--context=x"]), "/work"),
        Err("invalid context line count: x".to_string())
    );
    assert_eq!(launch(&["searchmonkey", "--context=+20"]).context_lines, Some(20));
}

#[test]
fn equals_forms_and_home_paths() {
    let request = launch(&["searchmonkey", "--path=~/notes", "--glob=*.md", "x"]);
    assert_eq!(request.path.as_deref(), Some("~/notes"));
    assert_eq!(request.globs, ["*.md"]);
    assert!(request.start);
}

#[test]
fn double_dash_takes_one_pattern() {
    let request = launch(&["searchmonkey", "--", "-literal"]);
    assert_eq!(request.query.as_deref(), Some("-literal"));
    assert_eq!(
        parse(args(&["searchmonkey", "--", "a", "b"]), "/work"),
        Err("unexpected extra argument: b".to_string())
    );
}

#[test]
fn windows_paths_are_read_from_the_working_directory() {
    let path_of = |list: &[&str]| match parse_in(args(list), r"C:\work", PathStyle::Windows).unwrap() {
        CliAction::Launch(Some(request)) => request.path,
        other => panic!("unexpected {other:?}"),
    };
    assert_eq!(path_of(&["searchmonkey", "--path", "docs"]).as_deref(), Some(r"C:\work\docs"));
    assert_eq!(path_of(&["searchmonkey", "--path", r"D:\x"]).as_deref(), Some(r"D:\x"));
    assert_eq!(path_of(&["searchmonkey", r"--path=\x"]).as_deref(), Some(r"C:\x"));
    assert_eq!(path_of(&["searchmonkey", "--path", r"~\docs"]).as_deref(), Some(r"~\docs"));
    assert_eq!(push_raw_exec(r"\\?\C:\work", r"..\a", PathStyle::Windows), r"\\?\C:\a");
    assert_eq!(push_raw_exec("C:", "x", PathStyle::Windows), "C:x");
    assert_eq!(push_raw_exec(r"C:\work\", "x", PathStyle::Windows), r"C:\work\x");
    assert_eq!(push_raw_exec("/work", "x", PathStyle::Unix), "/work/x");
    assert_eq!(push_raw_exec("/work", r"C:\x", PathStyle::Unix), r"/work/C:\x");
}
