use searchmonkey::search::{
    byte_to_utf16_offset, debug_command_line, matches_modified_filter, parse_submatches,
    shell_quote, RgLine, RgSubmatch, RipgrepSidecarProvider, SearchMatch, SearchRequest,
    SearchRunTally, SearchState, SearchSubmatch,
};

fn request() -> SearchRequest {
    SearchRequest {
        query: "needle".to_string(),
        path: "/src".to_string(),
        regex: true,
        case_sensitive: true,
        hidden: false,
        include_patterns: Vec::new(),
        exclude_patterns: Vec::new(),
        follow_symlinks: false,
        multiline: false,
        context_lines: 0,
        min_file_size: String::new(),
        max_file_size: String::new(),
        modified_after: None,
        skip_binary: true,
        encoding: "auto".to_string(),
        max_matches: None,
        respect_gitignore: true,
        ignore_node_modules: false,
        ignore_build_artifacts: false,
    }
}

#[test]
fn plain_request_gives_minimal_arguments() {
    assert_eq!(
        RipgrepSidecarProvider::args(request()),
        vec!["--json", "--line-number", "--no-messages", "needle", "/src"]
    );
}

#[test]
fn every_option_becomes_an_argument() {
    let mut r = request();
    r.regex = false;
    r.case_sensitive = false;
    r.hidden = true;
    r.follow_symlinks = true;
    r.multiline = true;
    r.skip_binary = false;
    r.respect_gitignore = false;
    r.context_lines = 50;
    r.max_matches = Some(7);
    r.min_file_size = " 10K ".to_string();
    r.max_file_size = "2M".to_string();
    r.include_patterns = vec!["*.rs".to_string()];
    r.exclude_patterns = vec!["target/**".to_string()];
    r.ignore_node_modules = true;
    r.ignore_build_artifacts = true;
    r.encoding = "utf-8".to_string();
    let args = RipgrepSidecarProvider::args(r);
    let expected: Vec<&str> = vec![
        "--json", "--line-number", "--no-messages",
        "--min-filesize", "10K", "--max-filesize", "2M", "--max-count", "7", "--context", "20",
        "--glob", "*.rs", "--glob", "!target/**", "--glob", "!**/node_modules/**",
        "--glob", "!**/dist/**", "--glob", "!**/build/**", "--glob", "!**/target/**",
        "--glob", "!**/.svelte-kit/**", "--glob", "!**/.next/**", "--glob", "!**/coverage/**",
        "--fixed-strings", "--ignore-case", "--hidden", "--follow", "--multiline", "--text",
        "--encoding", "utf-8", "--no-ignore", "needle", "/src",
    ];
    assert_eq!(args, expected);
    let mut zero = request();
    zero.max_matches = Some(0);
    zero.context_lines = 3;
    assert_eq!(
        RipgrepSidecarProvider::args(zero),
        vec!["--json", "--line-number", "--no-messages", "--context", "3", "needle", "/src"]
    );
}

#[test]
fn utf16_offsets_count_code_units() {
    let text = "aé😀b";
    assert_eq!(byte_to_utf16_offset(text, 0), 0);
    assert_eq!(byte_to_utf16_offset(text, 1), 1);
    assert_eq!(byte_to_utf16_offset(text, 3), 2);
    assert_eq!(byte_to_utf16_offset(text, 7), 4);
    assert_eq!(byte_to_utf16_offset(text, 8), 5);
    assert_eq!(byte_to_utf16_offset(text, 2), 2);
}

#[test]
fn submatches_are_checked_converted_and_sorted() {
    let items = vec![
        RgSubmatch { start: Some(3), end: Some(7) },
        RgSubmatch { start: Some(0), end: Some(1) },
        RgSubmatch { start: Some(5), end: Some(5) },
        RgSubmatch { start: Some(0), end: Some(99) },
        RgSubmatch { start: None, end: Some(2) },
    ];
    let subs = parse_submatches(&items, "aé😀b");
    assert_eq!(
        subs,
        vec![SearchSubmatch { start: 0, end: 1 }, SearchSubmatch { start: 2, end: 4 }]
    );
}

#[test]
fn reads_match_lines_only() {
    let line = RgLine {
        kind: Some("match".to_string()),
        path_text: Some("/src/main.rs".to_string()),
        line_number: Some(12),
        lines_text: Some("let needle = 1;\n".to_string()),
        submatches: Some(vec![RgSubmatch { start: Some(4), end: Some(10) }]),
    };
    let m = RipgrepSidecarProvider::match_from_rg_line(&line).unwrap();
    assert_eq!(m.path, "/src/main.rs");
    assert_eq!(m.line_number, 12);
    assert_eq!(m.line_text, "let needle = 1;");
    assert_eq!(m.submatches, vec![SearchSubmatch { start: 4, end: 10 }]);
    assert!(m.file_size.is_none());

    let other = RgLine { kind: Some("begin".to_string()), ..line.clone() };
    assert!(RipgrepSidecarProvider::match_from_rg_line(&other).is_none());
    let bare = RgLine {
        kind: Some("match".to_string()),
        path_text: None,
        line_number: None,
        lines_text: None,
        submatches: None,
    };
    let m = RipgrepSidecarProvider::match_from_rg_line(&bare).unwrap();
    assert_eq!(m.path, "");
    assert_eq!(m.line_number, 0);
    assert!(m.submatches.is_empty());
}

#[test]
fn parses_ripgrep_json_lines() {
    let line = br#"{"type":"match","data":{"path":{"text":"/src/lib.rs"},"lines":{"text":"fn caf\u00e9() {}\n"},"line_number":7,"absolute_offset":0,"submatches":[{"match":{"text":"caf\u00e9"},"start":3,"end":8}]}}"#;
    let m = RipgrepSidecarProvider::parse_match(line).unwrap();
    assert_eq!(m.path, "/src/lib.rs");
    assert_eq!(m.line_number, 7);
    assert_eq!(m.line_text, "fn café() {}");
    assert_eq!(m.submatches, vec![SearchSubmatch { start: 3, end: 7 }]);
    assert!(m.file_size.is_none() && m.modified_secs.is_none());

    let begin = br#"{"type":"begin","data":{"path":{"text":"/src/lib.rs"}}}"#;
    assert!(RipgrepSidecarProvider::parse_match(begin).is_none());
    assert!(RipgrepSidecarProvider::parse_match(b"not json").is_none());
    let bare = br#"{"type":"match","data":{"line_number":"x","submatches":[{"start":5,"end":1}]}}"#;
    let m = RipgrepSidecarProvider::parse_match(bare).unwrap();
    assert_eq!(m.path, "");
    assert_eq!(m.line_number, 0);
    assert_eq!(m.line_text, "");
    assert!(m.submatches.is_empty());
}

#[test]
fn modified_filter_needs_a_known_time() {
    let mut m = SearchMatch {
        path: "/a".to_string(),
        line_number: 1,
        line_text: String::new(),
        submatches: Vec::new(),
        file_size: None,
        modified_secs: None,
    };
    assert!(matches_modified_filter(&m, None));
    assert!(!matches_modified_filter(&m, Some(5)));
    m.modified_secs = Some(5);
    assert!(matches_modified_filter(&m, Some(5)));
    assert!(!matches_modified_filter(&m, Some(6)));
}

#[test]
fn command_lines_are_quoted_for_the_log() {
    assert_eq!(shell_quote(""), "''");
    assert_eq!(shell_quote("a-b_c./d:e=f,g@h%i+j"), "a-b_c./d:e=f,g@h%i+j");
    assert_eq!(shell_quote("it's here"), "'it'\\''s here'");
    assert_eq!(
        debug_command_line("/bin/rg", &vec!["--json".to_string(), "a b".to_string()]),
        "/bin/rg --json 'a b'"
    );
}

#[test]
fn tally_stops_at_the_result_limit() {
    let mut t = SearchRunTally::new();
    let s = t.on_match(false, 2);
    assert!(s.deliver.is_none() && !s.stop);
    assert_eq!(t.skipped_modified, 1);
    let s = t.on_match(true, 2);
    assert_eq!(s.deliver, Some(1));
    assert!(!s.stop);
    let s = t.on_match(true, 2);
    assert_eq!(s.deliver, Some(2));
    assert!(s.stop);
    assert!(t.limit_reached);
    assert_eq!(t.final_state(), SearchState::Completed);
    assert!(t.error_message("exit status: 0").is_none());
    t.read_error();
    assert_eq!(t.final_state(), SearchState::Failed);
    assert_eq!(
        t.error_message("exit status: 2"),
        Some("Search failed while reading results. exit status: 2".to_string())
    );
    let mut zero = SearchRunTally::new();
    let s = zero.on_match(true, 0);
    assert!(s.deliver.is_none() && s.stop);
}
