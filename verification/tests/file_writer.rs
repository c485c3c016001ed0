use crown::file_reader::{cache_get, cache_set, FileCache};
use crown::file_writer::{finish_write, write_file_content, FileWriterError, FileWriterResult, WriteStep};
use crown::ignore_rules::{install_ignore_rules, parse_ignore_file, IgnoreRules};

const CWD: &str = "/work";

/// Writes the way the tool does, with the given outcome of the actual write.
fn write(path: &str, cache: &mut FileCache, outcome: Result<(), String>) -> FileWriterResult {
    let rules = IgnoreRules::new();
    match write_file_content(path, &rules, CWD) {
        WriteStep::Done(r) => r,
        WriteStep::Write { absolute_path } => finish_write(cache, &absolute_path, outcome),
    }
}

fn read_count(cache: &FileCache, path: &str) -> u32 {
    cache_get(cache, path).map(|e| e.0).unwrap_or(0)
}

#[test]
fn file_writer_test_null_path() {
    let mut cache = FileCache::new();
    let result = write("", &mut cache, Ok(()));
    assert_eq!(result.error, FileWriterError::NullPath);
    assert_eq!(result.error_message, "Path parameter is required");
}

#[test]
fn file_writer_test_file_not_found() {
    let mut cache = FileCache::new();
    let result = write("/nonexistent_dir/file.txt", &mut cache, Err("No such file or directory (os error 2)".to_string()));
    assert_eq!(result.error, FileWriterError::WriteFailed);
    assert_eq!(result.error_message, "Error writing file: No such file or directory (os error 2)");
}

#[test]
fn test_write_success() {
    let mut cache = FileCache::new();
    let result = write("/tmp/test_write_success.txt", &mut cache, Ok(()));
    assert_eq!(result.error, FileWriterError::Success);
    assert_eq!(result.error_message, "");
}

#[test]
fn test_cache_invalidation_after_write() {
    let mut cache = FileCache::new();
    cache_set(&mut cache, "/tmp/inval.txt", 0, 5);
    assert!(read_count(&cache, "/tmp/inval.txt") > 0);
    let result = write("/tmp/inval.txt", &mut cache, Ok(()));
    assert_eq!(result.error, FileWriterError::Success);
    assert_eq!(read_count(&cache, "/tmp/inval.txt"), 0);
}

#[test]
fn test_repeated_writes_invalidate_cache_each_time() {
    let mut cache = FileCache::new();
    assert_eq!(write("/tmp/rep.txt", &mut cache, Ok(())).error, FileWriterError::Success);
    cache_set(&mut cache, "/tmp/rep.txt", 0, 3);
    assert_eq!(write("/tmp/rep.txt", &mut cache, Ok(())).error, FileWriterError::Success);
    assert_eq!(read_count(&cache, "/tmp/rep.txt"), 0);
    cache_set(&mut cache, "/tmp/rep.txt", 0, 7);
    assert_eq!(write("/tmp/rep.txt", &mut cache, Ok(())).error, FileWriterError::Success);
    assert_eq!(read_count(&cache, "/tmp/rep.txt"), 0);
}

#[test]
fn test_write_file_denied_by_crownignore() {
    let mut rules = IgnoreRules::new();
    install_ignore_rules(&mut rules, Vec::new(), parse_ignore_file("secret.txt\n"));
    match write_file_content("secret.txt", &rules, CWD) {
        WriteStep::Done(result) => {
            assert_eq!(result.error, FileWriterError::PermissionDenied);
            assert_eq!(result.error_message, "Access denied by .crownignore rules");
        }
        WriteStep::Write { .. } => panic!("nothing should be written"),
    }
}

#[test]
fn relative_write_target_is_resolved() {
    match write_file_content("dir/out.txt", &IgnoreRules::new(), CWD) {
        WriteStep::Write { absolute_path } => assert_eq!(absolute_path, "/work/dir/out.txt"),
        WriteStep::Done(_) => panic!("expected a write"),
    }
}

#[test]
fn failed_write_keeps_cache() {
    let mut cache = FileCache::new();
    cache_set(&mut cache, "/tmp/keep.txt", 0, 2);
    let result = write("/tmp/keep.txt", &mut cache, Err("denied".to_string()));
    assert_eq!(result.error, FileWriterError::WriteFailed);
    assert_eq!(read_count(&cache, "/tmp/keep.txt"), 2);
}
