use crown::search::{calc_line_number, get_line, match_record, new_search};




#[test]
fn test_new_search_invalid_regex() {
    assert!(new_search("[invalid", false, false, false).is_err());
}


#[test]
fn test_match_first_basic() {
    let s = new_search("foo", false, false, false).unwrap();
    let m = s.match_first("foo bar", 0).unwrap();
    assert_eq!(m.line_number, 1);
    assert_eq!(m.column_start, 0);
    assert_eq!(m.column_end, 3);
}


#[test]
fn test_match_first_no_match() {
    let s = new_search("xyz", false, false, false).unwrap();
    assert!(s.match_first("foo bar", 0).is_none());
}


#[test]
fn test_match_first_offset() {
    let s = new_search("foo", false, false, false).unwrap();
    assert!(s.match_first("foo foo", 4).is_some());
}


#[test]
fn test_match_all() {
    let s = new_search("a", false, false, false).unwrap();
    let matches = s.match_all("a b a", 0);
    assert_eq!(matches.len(), 2);
}


#[test]
fn test_match_all_no_matches() {
    let s = new_search("xyz", false, false, false).unwrap();
    let matches = s.match_all("foo bar", 0);
    assert!(matches.is_empty());
}


#[test]
fn test_calc_line_number() {
    assert_eq!(calc_line_number("foo\nbar\nbaz", 4), 2);
}


#[test]
fn test_calc_line_number_empty() {
    assert_eq!(calc_line_number("", 0), 1);
}


#[test]
fn test_get_line() {
    let text = "foo\nbar\nbaz";
    assert_eq!(get_line(text, 2).unwrap(), "bar");
}


#[test]
fn test_get_line_invalid() {
    assert!(get_line("foo", 5).is_none());
}


#[test]
fn test_case_insensitive() {
    let s = new_search("FOO", true, false, false).unwrap();
    assert!(s.match_first("foo", 0).is_some());
}


#[test]
fn test_multi_line() {
    let s = new_search("^bar", false, true, false).unwrap();
    assert!(s.match_first("foo\nbar", 0).is_some());
}


#[test]
fn test_dot_all() {
    let s = new_search("foo.bar", false, false, true).unwrap();
    assert!(s.match_first("foo\nbar", 0).is_some());
}


#[test]
fn test_match_at_start() {
    let s = new_search("hello", false, false, false).unwrap();
    let m = s.match_first("hello world", 0).unwrap();
    assert_eq!(m.column_start, 0);
    assert_eq!(m.column_end, 5);
}


#[test]
fn test_skip_offset_past_end() {
    let s = new_search("test", false, false, false).unwrap();
    assert!(s.match_first("test", 10).is_none());
}


#[test]
fn test_match_all_single() {
    let s = new_search("test", false, false, false).unwrap();
    let matches = s.match_all("this is a test", 0);
    assert_eq!(matches.len(), 1);
    assert_eq!(matches[0].column_start, 10);
}


#[test]
fn test_calc_line_number_second_line() {
    let text = "line1\nline2\nline3";
    assert_eq!(calc_line_number(text, 7), 2);
}


#[test]
fn test_calc_line_number_at_newline() {
    let text = "a\nb\nc";
    assert_eq!(calc_line_number(text, 1), 1);
    assert_eq!(calc_line_number(text, 2), 2);
}


#[test]
fn test_get_line_first() {
    let text = "hello\nworld";
    assert_eq!(get_line(text, 1).unwrap(), "hello");
}


#[test]
fn test_get_line_last_no_trailing_newline() {
    let text = "hello\nworld";
    assert_eq!(get_line(text, 2).unwrap(), "world");
}


#[test]
fn test_get_line_zero() {
    assert!(get_line("hello", 0).is_none());
}


#[test]
fn test_get_line_single() {
    assert_eq!(get_line("just one line", 1).unwrap(), "just one line");
}


#[test]
fn test_without_case_insensitive_no_match() {
    let s = new_search("HELLO", false, false, false).unwrap();
    assert!(s.match_first("hello world", 0).is_none());
}


#[test]
fn test_match_across_lines() {
    let s = new_search("line2", false, false, false).unwrap();
    let text = "line1\nline2\nline3";
    let m = s.match_first(text, 0).unwrap();
    assert_eq!(m.line_number, 2);
    assert_eq!(m.line, "line2");
}


#[test]
fn test_empty_text() {
    let s = new_search("foo", false, false, false).unwrap();
    assert!(s.match_first("", 0).is_none());
}

#[test]
fn match_record_reports_whole_line_and_columns() {
    let m = match_record("ab\ncd ef\r\ngh", 6, 8);
    assert_eq!(m.line_number, 2);
    assert_eq!(m.column_start, 6);
    assert_eq!(m.column_end, 8);
    assert_eq!(m.line, "cd ef");
    assert_eq!(m.path, "");
}

#[test]
fn match_all_steps_past_empty_matches() {
    let s = new_search("x*", false, false, false).unwrap();
    let ms = s.match_all("ab", 0);
    let spans: Vec<(usize, usize)> = ms.iter().map(|m| (m.column_start, m.column_end)).collect();
    assert_eq!(spans, vec![(0, 0), (1, 1)]);
}

#[test]
fn new_search_reports_regex_message() {
    let e = new_search("(", false, false, false).err().unwrap();
    assert!(!e.message.is_empty());
}

#[test]
fn match_first_finds_second_occurrence_from_offset() {
    let s = new_search("foo", false, false, false).unwrap();
    let m = s.match_first("foo foo", 1).unwrap();
    assert_eq!((m.column_start, m.column_end), (4, 7));
    assert_eq!(m.line, "foo foo");
}
