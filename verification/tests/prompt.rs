use crown::prompt::{build_system_prompt, shells_from_env, ShellInfo};

fn prompt(cwd: &str) -> String {
    build_system_prompt(cwd, "linux", &shells_from_env(Some("/bin/bash")))
}

#[test]
fn test_contains_role_description() {
    let p = prompt("/test");
    assert!(p.contains("Crown Code"));
    assert!(p.contains("software engineer"));
}

#[test]
fn test_contains_cwd() {
    let p = prompt("/test/cwd");
    assert!(p.contains("/test/cwd"));
}

#[test]
fn test_contains_os_info() {
    let p = build_system_prompt("/test", "macos", &[]);
    assert!(p.contains("Operating System:"));
    assert!(p.contains("macos"));
}

#[test]
fn test_contains_shell_info() {
    let p = prompt("/test");
    assert!(p.contains("Default Shell:"));
}

#[test]
fn test_contains_tool_use_section() {
    let p = prompt("/test");
    assert!(p.contains("TOOL USE"));
    assert!(p.contains("attempt_completion"));
}

#[test]
fn test_contains_rules_section() {
    let p = prompt("/test");
    assert!(p.contains("RULES"));
    assert!(p.contains("read_file"));
    assert!(p.contains("replace_in_file"));
}

#[test]
fn test_empty_cwd() {
    let p = prompt("");
    assert!(p.contains("Current Working Directory:"));
}

#[test]
fn test_sections_in_order() {
    let p = prompt("/test");
    let role_pos = p.find("software engineer").unwrap();
    let tool_use_pos = p.find("TOOL USE").unwrap();
    let tools_pos = p.find("AVAILABLE TOOLS").unwrap();
    let rules_pos = p.find("RULES").unwrap();
    let sys_info_pos = p.find("SYSTEM INFORMATION").unwrap();
    assert!(role_pos < tool_use_pos);
    assert!(tool_use_pos < tools_pos);
    assert!(tools_pos < rules_pos);
    assert!(rules_pos < sys_info_pos);
}

#[test]
fn test_prompt_tail_exact() {
    let p = prompt("/work");
    assert!(p.ends_with(
        "SYSTEM INFORMATION\nOperating System: linux\nDefault Shell: bash\nCurrent Working Directory: /work\n"
    ));
}

#[test]
fn test_unknown_shell_when_none_found() {
    let p = build_system_prompt("/w", "linux", &[]);
    assert!(p.contains("Default Shell: unknown\n"));
    let not_found = vec![ShellInfo { name: "zsh".to_string(), path: "/bin/zsh".to_string(), found: false }];
    let p = build_system_prompt("/w", "linux", &not_found);
    assert!(p.contains("Default Shell: unknown\n"));
}

#[test]
fn test_shells_from_env() {
    let shells = shells_from_env(Some("/usr/bin/fish"));
    assert_eq!(shells.len(), 1);
    assert_eq!(shells[0].name, "fish");
    assert_eq!(shells[0].path, "/usr/bin/fish");
    assert!(shells[0].found);
    assert!(shells_from_env(Some("")).is_empty());
    assert!(shells_from_env(None).is_empty());
}

#[test]
fn shell_names_follow_path_file_name() {
    let name = |p: &str| crown::prompt::shells_from_env(Some(p))[0].name.clone();
    assert_eq!(name("/usr/bin/zsh"), "zsh");
    assert_eq!(name("/bin/bash/"), "bash");
    assert_eq!(name("/bin/bash//."), "bash");
    assert_eq!(name("fish"), "fish");
    assert_eq!(name("/opt/.."), "");
    assert_eq!(name("/"), "");
    assert_eq!(name("."), "");
}
