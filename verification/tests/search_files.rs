use crown::ignore_rules::{install_ignore_rules, IgnoreRules};
use crown::search::new_search;
use crown::search_files::{
    add_file_matches, entry_action, relative_to_base, search_file, search_files, EntryAction,
    SearchFilesError, SearchFilesResult, SearchPlan, MAX_SEARCH_DEPTH, MAX_SEARCH_OUTPUT,
};

fn finished(plan: SearchPlan) -> SearchFilesResult {
    match plan {
        SearchPlan::Finished(r) => r,
        SearchPlan::Walk(_, _) => panic!("expected an immediate report"),
    }
}

fn fresh() -> SearchFilesResult {
    SearchFilesResult {
        results: String::new(),
        match_count: 0,
        error: SearchFilesError::Success,
        error_message: String::new(),
    }
}

#[test]
fn search_files_test_search_files_empty_directory() {
    let result = finished(search_files("", "pattern", "*", true));
    assert_eq!(result.error, SearchFilesError::NullParam);
}

#[test]
fn search_files_test_search_files_empty_regex() {
    let result = finished(search_files("/tmp", "", "*", true));
    assert_eq!(result.error, SearchFilesError::NullParam);
}

#[test]
fn test_search_files_empty_file_pattern() {
    let result = finished(search_files("/tmp", "pattern", "", true));
    assert_eq!(result.error, SearchFilesError::NullParam);
}

#[test]
fn test_search_files_nonexistent_dir() {
    let result = finished(search_files("/nonexistent_path_xyz_98765", "test", "*", false));
    assert_eq!(result.error, SearchFilesError::DirNotFound);
    assert_eq!(result.error_message, "directory not found: /nonexistent_path_xyz_98765");
}

#[test]
fn test_search_files_invalid_regex() {
    let result = finished(search_files("/tmp/dir", "[invalid", "*", true));
    assert_eq!(result.error, SearchFilesError::RegexError);
    assert!(result.error_message.starts_with("invalid regex: "));
}

#[test]
fn test_search_files_single_match() {
    let s = new_search("hello", false, false, false).unwrap();
    let mut result = fresh();
    search_file(&mut result, "test.txt", "hello world\nfoo bar\n", &s);
    assert_eq!(result.error, SearchFilesError::Success);
    assert_eq!(result.match_count, 1);
    assert!(result.results.contains("test.txt"));
    assert!(result.results.contains("│hello world"));
}

#[test]
fn test_search_files_multiple_matches_single_file() {
    let s = new_search("aaa", false, false, false).unwrap();
    let mut result = fresh();
    search_file(&mut result, "test.txt", "aaa\nbbb\naaa\n", &s);
    assert_eq!(result.match_count, 2);
}

#[test]
fn test_search_files_glob_filter() {
    let rules = IgnoreRules::new();
    assert_eq!(entry_action("match.txt", "/d/match.txt", false, true, "*.txt", &rules, "/d", 0), EntryAction::SearchFile);
    assert_eq!(entry_action("ignore.md", "/d/ignore.md", false, true, "*.txt", &rules, "/d", 0), EntryAction::Skip);
}

#[test]
fn test_search_files_empty_file() {
    let s = new_search("anything", false, false, false).unwrap();
    let mut result = fresh();
    search_file(&mut result, "empty.txt", "", &s);
    assert_eq!(result.match_count, 0);
    assert_eq!(result.results, "");
}

#[test]
fn test_search_files_depth_limit() {
    let rules = IgnoreRules::new();
    assert_eq!(entry_action("sub", "/d/sub", true, false, "*", &rules, "/d", 0), EntryAction::Descend);
    assert_eq!(
        entry_action("sub", "/d/sub", true, false, "*", &rules, "/d", MAX_SEARCH_DEPTH - 1),
        EntryAction::Descend
    );
    assert_eq!(
        entry_action("sub", "/d/sub", true, false, "*", &rules, "/d", MAX_SEARCH_DEPTH),
        EntryAction::Skip
    );
}

#[test]
fn test_search_files_output_format() {
    let s = new_search("match_this", false, false, false).unwrap();
    let mut result = fresh();
    search_file(&mut result, "file.txt", "line1\nmatch_this\nline3\n", &s);
    assert_eq!(result.results, "\nfile.txt\n│----\n│line1\n│match_this\n│line3\n│----\n");
}

#[test]
fn test_search_files_output_truncation() {
    let s = new_search("match line", false, false, false).unwrap();
    let mut content = String::with_capacity(MAX_SEARCH_OUTPUT + 50000);
    for i in 0..10000 {
        content.push_str(&format!("match line {} with some padding text\n", i));
    }
    let mut result = fresh();
    search_file(&mut result, "big.txt", &content, &s);
    assert!(result.results.contains("[Results truncated...]"));
    assert_eq!(result.match_count, 10000);
}

#[test]
fn test_search_files_context_lines_before_after() {
    let s = new_search("target", false, false, false).unwrap();
    let mut result = fresh();
    search_file(&mut result, "ctx.txt", "before\ntarget\nafter\n", &s);
    assert!(result.results.contains("│before\n"));
    assert!(result.results.contains("│target\n"));
    assert!(result.results.contains("│after\n"));
}

#[test]
fn test_search_files_first_line_no_before_context() {
    let s = new_search("target", false, false, false).unwrap();
    let mut result = fresh();
    search_file(&mut result, "first.txt", "target\nnext\n", &s);
    let lines: Vec<&str> = result.results.lines().collect();
    let target_idx = lines.iter().position(|l| *l == "│target").unwrap();
    let prev = lines[target_idx - 1];
    assert_eq!(prev, "│----");
}

#[test]
fn walk_plan_compiles_the_pattern() {
    match search_files("/tmp", "a+b", "*.rs", true) {
        SearchPlan::Walk(_, r) => {
            assert_eq!(r.error, SearchFilesError::Success);
            assert_eq!(r.match_count, 0);
        }
        SearchPlan::Finished(_) => panic!("expected a walk"),
    }
}

#[test]
fn entry_action_skips_dots_and_ignored_paths() {
    let mut rules = IgnoreRules::new();
    install_ignore_rules(&mut rules, Vec::new(), vec!["target".to_string()]);
    assert_eq!(entry_action(".", "/d/.", true, false, "*", &rules, "/d", 0), EntryAction::Skip);
    assert_eq!(entry_action("..", "/d/..", true, false, "*", &rules, "/d", 0), EntryAction::Skip);
    assert_eq!(entry_action("target", "/d/target", true, false, "*", &rules, "/d", 0), EntryAction::Skip);
    assert_eq!(entry_action("fifo", "/d/fifo", false, false, "*", &rules, "/d", 0), EntryAction::Skip);
}

#[test]
fn relative_to_base_strips_directory_prefix() {
    assert_eq!(relative_to_base("/base/dir/a/b.txt", "/base/dir"), "a/b.txt");
    assert_eq!(relative_to_base("/base/dirx/b.txt", "/base/dir"), "/base/dirx/b.txt");
    assert_eq!(relative_to_base("/base/dir", "/base/dir"), "/base/dir");
}

#[test]
fn add_file_matches_counts_and_truncates_at_limit() {
    let s = new_search("x", false, false, false).unwrap();
    let ms = s.match_all("x\n", 0);
    let mut result = fresh();
    result.results = "y".repeat(MAX_SEARCH_OUTPUT - 50);
    add_file_matches(&mut result, "f.txt", "x\n", &ms);
    assert_eq!(result.match_count, 1);
    assert!(result.results.ends_with("\n[Results truncated...]\n"));
}
