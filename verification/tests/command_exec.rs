use crown::command_exec::{precheck_command, CommandError, requires_approval, split_commands, trim_whitespace, CircularBuffer, CIRCULAR_BUFFER_SIZE};




#[test]
fn test_trim_whitespace_empty() {
    assert_eq!(trim_whitespace(""), "");
}


#[test]
fn test_trim_whitespace_spaces() {
    assert_eq!(trim_whitespace("  hello  "), "hello");
}


#[test]
fn test_trim_whitespace_tabs() {
    assert_eq!(trim_whitespace("\t\thello\t"), "hello");
}


#[test]
fn test_trim_whitespace_mixed() {
    assert_eq!(trim_whitespace(" \t hello \t "), "hello");
}


#[test]
fn test_trim_whitespace_no_change() {
    assert_eq!(trim_whitespace("hello"), "hello");
}


#[test]
fn test_split_commands_and_and() {
    let result = split_commands("echo a && echo b");
    assert_eq!(result, vec!["echo a ", " echo b"]);
}


#[test]
fn test_split_commands_or_or() {
    let result = split_commands("echo a || echo b");
    assert_eq!(result, vec!["echo a ", " echo b"]);
}


#[test]
fn test_split_commands_and_or() {
    let result = split_commands("echo a &| echo b");
    assert_eq!(result, vec!["echo a ", " echo b"]);
}


#[test]
fn test_split_commands_pipe() {
    let result = split_commands("echo a | grep a");
    assert_eq!(result, vec!["echo a ", " grep a"]);
}


#[test]
fn test_split_commands_background() {
    let result = split_commands("cmd1 & cmd2");
    assert_eq!(result, vec!["cmd1 ", " cmd2"]);
}


#[test]
fn test_split_commands_semicolon() {
    let result = split_commands("echo a; echo b");
    assert_eq!(result, vec!["echo a", " echo b"]);
}


#[test]
fn test_split_commands_combined() {
    let result = split_commands("a && b || c; d & e | f");
    assert_eq!(result, vec!["a ", " b ", " c", " d ", " e ", " f"]);
}


#[test]
fn test_split_commands_empty() {
    let result: Vec<String> = split_commands("");
    assert!(result.is_empty());
}


#[test]
fn test_split_commands_no_separator() {
    let result = split_commands("echo hello world");
    assert_eq!(result, vec!["echo hello world"]);
}


#[test]
fn test_requires_approval_always_true() {
    assert!(requires_approval("echo hello"));
    assert!(requires_approval(""));
    assert!(requires_approval("rm -rf /"));
}


#[test]
fn test_circular_buffer_push_join() {
    let mut cb = CircularBuffer::new();
    cb.push("hello");
    cb.push("world");
    assert_eq!(cb.join(), "helloworld");
}


#[test]
fn test_circular_buffer_overflow() {
    let mut cb = CircularBuffer::new();
    for i in 0..CIRCULAR_BUFFER_SIZE + 100 {
        cb.push(&format!("line{}", i));
    }
    let result = cb.join();
    assert!(result.starts_with("line100"));
    assert!(result.ends_with("line2099"));
}


#[test]
fn test_circular_buffer_single_line() {
    let mut cb = CircularBuffer::new();
    cb.push("only");
    assert_eq!(cb.join(), "only");
}


#[test]
fn test_circular_buffer_empty() {
    let mut cb = CircularBuffer::new();
    assert_eq!(cb.join(), "");
}


#[test]
fn test_exec_command_empty() {
    assert_eq!(precheck_command("", &[]), CommandError::ExecutionFailed);
}

#[test]
fn test_exec_command_whitespace() {
    assert_eq!(precheck_command("   \t   ", &[]), CommandError::ExecutionFailed);
}
