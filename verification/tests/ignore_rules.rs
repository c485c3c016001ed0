use crown::ignore_rules::{
    check_ignore_path, install_ignore_rules, match_ignore_pattern, parse_ignore_file,
    reset_ignore_rules, IgnoreRules,
};

const CWD: &str = "/work/project";

#[test]
fn test_match_ignore_pattern_simple_glob() {
    assert!(match_ignore_pattern("*.txt", "foo.txt"));
    assert!(!match_ignore_pattern("*.txt", "foo.rs"));
}

#[test]
fn test_match_ignore_pattern_star_slash_prefix() {
    assert!(match_ignore_pattern("*.txt", "sub/foo.txt"));
    assert!(match_ignore_pattern("node_modules", "project/node_modules"));
}

#[test]
fn test_match_ignore_pattern_exact_path() {
    assert!(match_ignore_pattern("secret/file.txt", "secret/file.txt"));
    assert!(!match_ignore_pattern("secret/file.txt", "other/file.txt"));
}

#[test]
fn test_match_ignore_pattern_negation() {
    assert!(!match_ignore_pattern("!*.txt", "foo.txt"));
    assert!(match_ignore_pattern("!*.txt", "foo.rs"));
}

#[test]
fn test_match_ignore_pattern_negation_with_all_star() {
    assert!(!match_ignore_pattern("!*", "anything"));
}

#[test]
fn test_check_ignore_path_empty() {
    let rules = IgnoreRules::new();
    assert!(!check_ignore_path(&rules, "", CWD));
}

#[test]
fn test_reset_ignore_rules() {
    let mut rules = IgnoreRules::new();
    install_ignore_rules(&mut rules, vec!["*.a".to_string()], vec!["*.b".to_string()]);
    reset_ignore_rules(&mut rules);
    assert!(!rules.initialized);
    assert!(rules.global_patterns.is_empty());
    assert!(rules.project_patterns.is_empty());
}

#[test]
fn test_load_ignore_file_only_comments_returns_empty() {
    let patterns = parse_ignore_file("# comment\n\n  \n# another\n");
    assert!(patterns.is_empty());
}

#[test]
fn test_check_ignore_path_no_rules_file_returns_false() {
    let mut rules = IgnoreRules::new();
    reset_ignore_rules(&mut rules);
    assert!(!check_ignore_path(&rules, "test.nim", CWD));
}

#[test]
fn test_check_ignore_path_with_project_crownignore() {
    let mut rules = IgnoreRules::new();
    install_ignore_rules(&mut rules, Vec::new(), parse_ignore_file("*.nim\n"));
    assert!(check_ignore_path(&rules, "test.nim", CWD));
    assert!(!check_ignore_path(&rules, "test.txt", CWD));
}

#[test]
fn test_check_ignore_path_absolute_converted_to_relative() {
    let mut rules = IgnoreRules::new();
    install_ignore_rules(&mut rules, Vec::new(), parse_ignore_file("*.log\n"));
    let absolute_path = format!("{}/test.log", CWD);
    assert!(check_ignore_path(&rules, &absolute_path, CWD));
    let absolute_path_nim = format!("{}/test.nim", CWD);
    assert!(!check_ignore_path(&rules, &absolute_path_nim, CWD));
}

#[test]
fn test_match_ignore_pattern_with_slash() {
    assert!(match_ignore_pattern("dir/*.txt", "dir/file.txt"));
    assert!(!match_ignore_pattern("dir/*.txt", "other/file.txt"));
}

#[test]
fn test_load_ignore_file_with_comments_and_blanks() {
    let patterns = parse_ignore_file("# comment\n  \n*.txt\n\n*.rs\n");
    assert_eq!(patterns.len(), 2);
    assert_eq!(patterns[0], "*.txt");
    assert_eq!(patterns[1], "*.rs");
}

#[test]
fn test_load_ignore_file_trailing_whitespace() {
    let patterns = parse_ignore_file("*.txt   \n*.rs\t\n");
    assert_eq!(patterns.len(), 2);
    assert_eq!(patterns[0], "*.txt");
    assert_eq!(patterns[1], "*.rs");
}

#[test]
fn global_patterns_apply_before_project_patterns() {
    let mut rules = IgnoreRules::new();
    install_ignore_rules(&mut rules, vec!["secret".to_string()], Vec::new());
    assert!(check_ignore_path(&rules, "/work/project/a/secret", CWD));
    assert!(!check_ignore_path(&rules, "/work/project/a/public", CWD));
}

#[test]
fn negated_pattern_hides_everything_else() {
    let mut rules = IgnoreRules::new();
    install_ignore_rules(&mut rules, Vec::new(), vec!["!*.rs".to_string()]);
    assert!(check_ignore_path(&rules, "notes.txt", CWD));
    assert!(!check_ignore_path(&rules, "main.rs", CWD));
}

#[test]
fn parse_keeps_crlf_lines_trimmed() {
    let patterns = parse_ignore_file("a\r\n#x\r\nb");
    assert_eq!(patterns, vec!["a".to_string(), "b".to_string()]);
}
