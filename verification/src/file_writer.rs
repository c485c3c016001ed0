//! Writing a whole file for the agent.  The caller performs the write;
//! the checks before it and the outcome after it are decided here.
use vstd::prelude::*;
use crate::file_reader::{cached, cache_invalidate, same_but, slot_of, FileCache};
use crate::ignore_rules::{check_ignore_path, path_ignored, pattern_texts, IgnoreRules};
use crate::pathutils::{resolve_workspace_path, workspace_path};
use crate::text::{push_str, string_of};

verus! {

/// How writing a file ended.
#[derive(Debug, Clone, Copy, PartialEq, Eq, Structural)]
pub enum FileWriterError {
    Success,
    NullPath,
    FileNotFound,
    PermissionDenied,
    WriteFailed,
}

/// The outcome of writing a file.
#[derive(Debug, Clone)]
pub struct FileWriterResult {
    pub error: FileWriterError,
    pub error_message: String,
}

/// What to do about a write: report at once, or write the content to the
/// resolved path and then call [`finish_write`].
pub enum WriteStep {
    Done(FileWriterResult),
    Write { absolute_path: String },
}

/// Whether a write step reports at once with this outcome and message.
pub open spec fn write_done_with(r: WriteStep, e: FileWriterError, msg: Seq<char>) -> bool {
    match r {
        WriteStep::Done(w) => w.error == e && w.error_message@ == msg,
        _ => false,
    }
}

/// The checks before writing `path`: it must be given, not hidden by the
/// ignore rules, and resolvable against `current_dir`.
pub open spec fn write_step_spec(
    r: WriteStep,
    path: Seq<char>,
    global: Seq<Seq<char>>,
    project: Seq<Seq<char>>,
    current_dir: Seq<char>,
) -> bool {
    let abs = workspace_path(path, current_dir);
    if path.len() == 0 {
        write_done_with(r, FileWriterError::NullPath, "Path parameter is required"@)
    } else if path_ignored(global, project, path, current_dir) {
        write_done_with(r, FileWriterError::PermissionDenied, "Access denied by .crownignore rules"@)
    } else if abs.len() == 0 {
        write_done_with(r, FileWriterError::FileNotFound, "Could not resolve path"@)
    } else {
        r matches WriteStep::Write { absolute_path } && absolute_path@ == abs
    }
}

/// Decides whether `path` may be written (see [`write_step_spec`]).
pub fn write_file_content(path: &str, rules: &IgnoreRules, current_dir: &str) -> (r: WriteStep)
    ensures
        write_step_spec(
            r,
            path@,
            pattern_texts(rules.global_patterns@),
            pattern_texts(rules.project_patterns@),
            current_dir@,
        ),
{
    if path.is_empty() {
        return WriteStep::Done(
            FileWriterResult {
                error: FileWriterError::NullPath,
                error_message: string_of("Path parameter is required"),
            },
        );
    }
    if check_ignore_path(rules, path, current_dir) {
        return WriteStep::Done(
            FileWriterResult {
                error: FileWriterError::PermissionDenied,
                error_message: string_of("Access denied by .crownignore rules"),
            },
        );
    }
    let absolute_path = resolve_workspace_path(path, current_dir);
    if absolute_path.as_str().is_empty() {
        return WriteStep::Done(
            FileWriterResult {
                error: FileWriterError::FileNotFound,
                error_message: string_of("Could not resolve path"),
            },
        );
    }
    WriteStep::Write { absolute_path }
}

/// The outcome of a write to `absolute_path`: a failure reports the
/// system's reason; a success forgets the file's cached reads.
pub fn finish_write(cache: &mut FileCache, absolute_path: &str, outcome: Result<(), String>) -> (r: FileWriterResult)
    requires
        old(cache).wf(),
    ensures
        final(cache).wf(),
        match outcome {
            Ok(_) => {
                &&& r.error == FileWriterError::Success
                &&& r.error_message@.len() == 0
                &&& cached(*final(cache), absolute_path@) is None
                &&& same_but(*old(cache), *final(cache), slot_of(absolute_path@))
            },
            Err(e) => {
                &&& r.error == FileWriterError::WriteFailed
                &&& r.error_message@ == "Error writing file: "@ + e@
                &&& *final(cache) == *old(cache)
            },
        },
{
    match outcome {
        Ok(_) => {
            cache_invalidate(cache, absolute_path);
            FileWriterResult { error: FileWriterError::Success, error_message: String::new() }
        },
        Err(e) => {
            let mut msg = string_of("Error writing file: ");
            push_str(&mut msg, e.as_str());
            FileWriterResult { error: FileWriterError::WriteFailed, error_message: msg }
        },
    }
}

} // verus!
