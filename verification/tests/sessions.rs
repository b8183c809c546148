use searchmonkey::winpath::PathStyle;
use searchmonkey::search::SearchState;
use searchmonkey::session::{
    check_preview_range, directory_suggestions, expand_home_path, final_search_state,
    preview_bounds, preview_step, result_limit, result_page, PreviewStep, UI_RESULT_LIMIT,
};

fn names(list: &[&str]) -> Vec<String> {
    list.iter().map(|name| name.to_string()).collect()
}

#[test]
fn result_limits_default_and_stay_positive() {
    assert_eq!(result_limit(None), UI_RESULT_LIMIT);
    assert_eq!(result_limit(Some(0)), 1);
    assert_eq!(result_limit(Some(250)), 250);
}

#[test]
fn result_pages_stop_at_the_end() {
    assert_eq!(result_page(10, 0, 4), Some((0, 4)));
    assert_eq!(result_page(10, 8, 4), Some((8, 10)));
    assert_eq!(result_page(10, 10, 4), None);
    assert_eq!(result_page(0, 0, 4), None);
    assert_eq!(result_page(10, 3, usize::MAX), Some((3, 10)));
}

#[test]
fn a_cancelled_search_ends_cancelled() {
    assert_eq!(final_search_state(SearchState::Cancelling, SearchState::Completed), SearchState::Cancelled);
    assert_eq!(final_search_state(SearchState::Running, SearchState::Failed), SearchState::Failed);
    assert_eq!(final_search_state(SearchState::Running, SearchState::Completed), SearchState::Completed);
}

#[test]
fn previews_read_a_window_of_lines() {
    assert!(check_preview_range(1, 1).is_ok());
    assert_eq!(check_preview_range(0, 3), Err("Preview line range is invalid.".to_string()));
    assert!(check_preview_range(5, 4).is_err());
    assert!(check_preview_range(4, 0).is_err());

    assert_eq!(preview_step(2, 3, 5), PreviewStep::Skip);
    assert_eq!(preview_step(3, 3, 5), PreviewStep::Keep);
    assert_eq!(preview_step(5, 3, 5), PreviewStep::Keep);
    assert_eq!(preview_step(6, 3, 5), PreviewStep::Stop);
    assert_eq!(preview_step(250_001, 1, 300_000), PreviewStep::TooDeep);

    assert_eq!(preview_bounds(3, Some(5), false), (5, true));
    assert_eq!(preview_bounds(1, Some(2), false), (2, false));
    assert_eq!(preview_bounds(1, None, true), (1, true));
}

#[test]
fn home_relative_paths_are_expanded() {
    assert_eq!(expand_home_path("~", Some("/home/u"), PathStyle::Unix), Ok("/home/u".to_string()));
    assert_eq!(expand_home_path("~/docs", Some("/home/u"), PathStyle::Unix), Ok("/home/u/docs".to_string()));
    assert_eq!(expand_home_path("/var/log", None, PathStyle::Unix), Ok("/var/log".to_string()));
    assert_eq!(expand_home_path("~other", None, PathStyle::Unix), Ok("~other".to_string()));
    assert_eq!(
        expand_home_path("~/docs", None, PathStyle::Unix),
        Err("Could not resolve the current user's home directory".to_string())
    );
}

#[test]
fn folder_suggestions_sort_without_case_and_mark_folders() {
    let found = names(&["beta", ".git", "Zulu", "Alpha", "", "alpha", "Ärger", "zeta", "ÄBC"]);
    assert_eq!(
        directory_suggestions(&found, false),
        names(&["Alpha/", "alpha/", "beta/", "zeta/", "Zulu/", "ÄBC/", "Ärger/"])
    );
    assert_eq!(
        directory_suggestions(&found, true),
        names(&[".git/", "Alpha/", "alpha/", "beta/", "zeta/", "Zulu/", "ÄBC/", "Ärger/"])
    );

    let many = (0..600).map(|n| format!("d{n:03}")).collect::<Vec<_>>();
    let shown = directory_suggestions(&many, false);
    assert_eq!(shown.len(), 500);
    assert_eq!(shown[0], "d000/");
    assert_eq!(shown[499], "d499/");
}
