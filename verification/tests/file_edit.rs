use crown::file_edit::{edit_file, finish_edit, join_lines, split_into_lines, EditStep, FileEditError, FileEditResult};
use crown::file_reader::{cache_get, cache_set, FileCache};
use crown::ignore_rules::{install_ignore_rules, IgnoreRules};




#[test]
fn test_split_into_lines_basic() {
    let lines = split_into_lines("hello\nworld\n");
    assert_eq!(lines, vec!["hello", "world", ""]);
}


#[test]
fn test_split_into_lines_no_trailing_newline() {
    let lines = split_into_lines("hello\nworld");
    assert_eq!(lines, vec!["hello", "world"]);
}


#[test]
fn test_split_into_lines_empty() {
    let lines = split_into_lines("");
    assert_eq!(lines, vec![""]);
}


#[test]
fn test_split_into_lines_single_line() {
    let lines = split_into_lines("hello");
    assert_eq!(lines, vec!["hello"]);
}


#[test]
fn test_join_lines_basic() {
    let result = join_lines(&["hello".to_string(), "world".to_string()]);
    assert_eq!(result, "hello\nworld");
}


#[test]
fn test_join_lines_with_trailing_empty() {
    let result = join_lines(&["hello".to_string(), "".to_string()]);
    assert_eq!(result, "hello\n");
}


#[test]
fn test_join_lines_single() {
    let result = join_lines(&["hello".to_string()]);
    assert_eq!(result, "hello");
}


#[test]
fn test_join_lines_empty_vec() {
    let result = join_lines(&[]);
    assert_eq!(result, "");
}


#[test]
fn test_split_roundtrip() {
    let input = "abc\n";
    let lines = split_into_lines(input);
    assert_eq!(lines, vec!["abc", ""]);
    let output = join_lines(&lines);
    assert_eq!(output, "abc\n");
}


const CWD: &str = "/work";

/// Runs an edit the way the tool does: the content read is handed in, and
/// a planned write succeeds.  Returns the result and the content written.
fn run_edit(path: &str, content: Result<&str, &str>, old: &str, new: &str, multiple: bool) -> (FileEditResult, Option<String>) {
    let rules = IgnoreRules::new();
    let mut cache = FileCache::new();
    let read = content.map(|c| c.to_string()).map_err(|e| e.to_string());
    match edit_file(path, old, new, multiple, &rules, CWD, read) {
        EditStep::Done(r) => (r, None),
        EditStep::Write { absolute_path, content, match_count } => {
            let r = finish_edit(&mut cache, &absolute_path, match_count, Ok(()));
            (r, Some(content))
        }
    }
}

#[test]
fn test_edit_file_not_found() {
    let (result, _) = run_edit("", Err("unused"), "old", "new", false);
    assert_eq!(result.error, FileEditError::FileNotFound);
}

#[test]
fn test_edit_file_nonexistent() {
    let (result, _) = run_edit("/nonexistent_path_xyz/edit.txt", Err("No such file or directory (os error 2)"), "old", "new", false);
    assert_eq!(result.error, FileEditError::ReadFailed);
    assert_eq!(result.error_message, "Error reading file: No such file or directory (os error 2)");
}

#[test]
fn test_edit_file_old_string_not_found() {
    let (result, written) = run_edit("/tmp/e.txt", Ok("hello\nworld\n"), "nonexistent", "new", false);
    assert_eq!(result.error, FileEditError::OldStringNotFound);
    assert!(written.is_none());
}

#[test]
fn test_edit_file_single_replace() {
    let (result, written) = run_edit("/tmp/e.txt", Ok("hello\nworld\n"), "hello", "hi", false);
    assert_eq!(result.error, FileEditError::Success);
    assert_eq!(result.match_count, 1);
    assert_eq!(written.unwrap(), "hi\nworld\n");
}

#[test]
fn test_edit_file_replace_all() {
    let (result, written) = run_edit("/tmp/e.txt", Ok("hello\nworld\nhello\n"), "hello", "hi", true);
    assert_eq!(result.error, FileEditError::Success);
    assert_eq!(result.match_count, 2);
    assert_eq!(written.unwrap(), "hi\nworld\nhi\n");
}

#[test]
fn test_edit_file_multiple_matches_error() {
    let (result, written) = run_edit("/tmp/e.txt", Ok("hello\nhello\n"), "hello", "hi", false);
    assert_eq!(result.error, FileEditError::MultipleMatches);
    assert_eq!(result.match_count, 2);
    assert_eq!(result.error_message, "Found multiple matches (2), but multiple is false");
    assert!(written.is_none());
}

#[test]
fn test_edit_file_first_line() {
    let (result, written) = run_edit("/tmp/e.txt", Ok("first\nsecond\nthird\n"), "first", "changed", false);
    assert_eq!(result.error, FileEditError::Success);
    assert_eq!(written.unwrap(), "changed\nsecond\nthird\n");
}

#[test]
fn test_edit_file_last_line() {
    let (result, written) = run_edit("/tmp/e.txt", Ok("first\nmiddle\ntarget"), "target", "replaced", false);
    assert_eq!(result.error, FileEditError::Success);
    assert_eq!(written.unwrap(), "first\nmiddle\nreplaced");
}

#[test]
fn test_edit_file_single_line_replace() {
    let (result, written) = run_edit("/tmp/e.txt", Ok("only"), "only", "replaced", false);
    assert_eq!(result.error, FileEditError::Success);
    assert_eq!(written.unwrap(), "replaced");
}

#[test]
fn test_edit_file_empty_old_str_matches_empty_lines() {
    let (result, written) = run_edit("/tmp/e.txt", Ok("a\n\nc\n"), "", "FILLED", true);
    assert_eq!(result.error, FileEditError::Success);
    assert_eq!(result.match_count, 2);
    assert_eq!(written.unwrap(), "a\nFILLED\nc\nFILLED");
}

#[test]
fn test_edit_file_new_str_with_newline() {
    let (result, written) = run_edit("/tmp/e.txt", Ok("before\ntarget\nafter\n"), "target", "line1\nline2", false);
    assert_eq!(result.error, FileEditError::Success);
    assert_eq!(written.unwrap(), "before\nline1\nline2\nafter\n");
}

#[test]
fn test_edit_file_trailing_newline() {
    let (result, written) = run_edit("/tmp/e.txt", Ok("abc\n"), "abc", "xyz", false);
    assert_eq!(result.error, FileEditError::Success);
    assert_eq!(written.unwrap(), "xyz\n");
}

#[test]
fn test_edit_file_multiple_matches_error_file_unchanged() {
    let (result, written) = run_edit("/tmp/e.txt", Ok("hello\nworld\nhello\n"), "hello", "hi", false);
    assert_eq!(result.error, FileEditError::MultipleMatches);
    assert_eq!(result.match_count, 2);
    assert!(written.is_none());
}

#[test]
fn test_empty_file_returns_old_string_not_found() {
    let (result, _) = run_edit("/tmp/e.txt", Ok(""), "anything", "new", false);
    assert_eq!(result.error, FileEditError::OldStringNotFound);
}

#[test]
fn edit_denied_by_ignore_rules() {
    let mut rules = IgnoreRules::new();
    install_ignore_rules(&mut rules, Vec::new(), vec!["*.secret".to_string()]);
    match edit_file("a.secret", "x", "y", false, &rules, CWD, Ok("x".to_string())) {
        EditStep::Done(r) => {
            assert_eq!(r.error, FileEditError::ReadFailed);
            assert_eq!(r.error_message, "Access denied by .crownignore rules");
        }
        EditStep::Write { .. } => panic!("nothing should be written"),
    }
}

#[test]
fn finished_edit_forgets_cached_reads_or_reports_write_failure() {
    let mut cache = FileCache::new();
    cache_set(&mut cache, "/work/a.txt", 1, 4);
    let ok = finish_edit(&mut cache, "/work/a.txt", 1, Ok(()));
    assert_eq!(ok.error, FileEditError::Success);
    assert!(cache_get(&cache, "/work/a.txt").is_none());
    let failed = finish_edit(&mut cache, "/work/a.txt", 3, Err("read-only".to_string()));
    assert_eq!(failed.error, FileEditError::WriteFailed);
    assert_eq!(failed.error_message, "Error writing file: read-only");
    assert_eq!(failed.match_count, 3);
}
