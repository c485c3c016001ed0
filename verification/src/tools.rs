//! The agent's tools: what a call of a tool asks for, given its decoded
//! arguments, and the text the model gets back once the work is done.
//! Doing the work (files, commands) is the caller's part.
use vstd::prelude::*;
use crate::file_edit::{FileEditError, FileEditResult};
use crate::file_reader::{FileReaderError, FileReaderResult};
use crate::file_writer::{FileWriterError, FileWriterResult};
use crate::json::{as_str_spec, get_i64, i64_member, str_member, str_or, str_or_empty, text_or, JsonValue};
use crate::list_files::{ListFilesError, ListFilesResult, MAX_LIST_ENTRIES};
use crate::search_files::{SearchFilesError, SearchFilesResult};
use crate::text::{decimal, decimal_int, join_newline, push_decimal, push_decimal_i64, push_str, string_of};

verus! {

/// The work a tool call asks for.
#[derive(Debug)]
pub enum ToolRequest {
    ReadFile { path: String, start_line: i32, end_line: i32 },
    WriteFile { path: String, content: String },
    ReplaceInFile { path: String, old_string: String, new_string: String },
    ExecuteCommand { command: String },
    SearchFiles { directory: String, regex: String, file_pattern: String },
    ListFiles { path: String },
}

/// What to do with a tool call: answer it at once with a text, or do the
/// work of a request first.
#[derive(Debug)]
pub enum ToolPlan {
    Reply(String),
    Run(ToolRequest),
}

/// The text of argument `key` (empty when missing or not a string).
pub open spec fn arg(args: JsonValue, key: Seq<char>) -> Seq<char> {
    text_or(str_member(args, key), Seq::empty())
}

/// A line-number argument: its integer value cut to 32 bits, 0 when
/// missing.
pub open spec fn line_arg(args: JsonValue, key: Seq<char>) -> i32 {
    (match i64_member(args, key) {
        Some(n) => n,
        None => 0,
    }) as i32
}

/// The reply for a missing required argument.
pub open spec fn missing(param: Seq<char>) -> Seq<char> {
    "Error: "@ + param + " parameter is required"@
}

/// Whether `p` is the plan for calling tool `name` with `args`.
pub open spec fn is_plan(p: ToolPlan, name: Seq<char>, args: JsonValue) -> bool {
    let path = arg(args, "path"@);
    if name == "read_file"@ {
        if path.len() == 0 {
            p matches ToolPlan::Reply(t) && t@ == missing("path"@)
        } else {
            p matches ToolPlan::Run(ToolRequest::ReadFile { path: q, start_line, end_line })
                && q@ == path && start_line == line_arg(args, "start_line"@) && end_line
                == line_arg(args, "end_line"@)
        }
    } else if name == "write_to_file"@ {
        if path.len() == 0 {
            p matches ToolPlan::Reply(t) && t@ == missing("path"@)
        } else {
            p matches ToolPlan::Run(ToolRequest::WriteFile { path: q, content }) && q@ == path
                && content@ == arg(args, "content"@)
        }
    } else if name == "replace_in_file"@ {
        if path.len() == 0 {
            p matches ToolPlan::Reply(t) && t@ == missing("path"@)
        } else if arg(args, "old_string"@).len() == 0 {
            p matches ToolPlan::Reply(t) && t@ == missing("old_string"@)
        } else {
            p matches ToolPlan::Run(ToolRequest::ReplaceInFile { path: q, old_string, new_string })
                && q@ == path && old_string@ == arg(args, "old_string"@) && new_string@ == arg(
                args,
                "new_string"@,
            )
        }
    } else if name == "execute_command"@ {
        if arg(args, "command"@).len() == 0 {
            p matches ToolPlan::Reply(t) && t@ == missing("command"@)
        } else {
            p matches ToolPlan::Run(ToolRequest::ExecuteCommand { command }) && command@ == arg(
                args,
                "command"@,
            )
        }
    } else if name == "search_files"@ {
        if arg(args, "directory"@).len() == 0 {
            p matches ToolPlan::Reply(t) && t@ == missing("directory"@)
        } else if arg(args, "regex"@).len() == 0 {
            p matches ToolPlan::Reply(t) && t@ == missing("regex"@)
        } else {
            p matches ToolPlan::Run(ToolRequest::SearchFiles { directory, regex, file_pattern })
                && directory@ == arg(args, "directory"@) && regex@ == arg(args, "regex"@)
                && file_pattern@ == text_or(str_member(args, "file_pattern"@), "*"@)
        }
    } else if name == "list_files"@ {
        if path.len() == 0 {
            p matches ToolPlan::Reply(t) && t@ == missing("path"@)
        } else {
            p matches ToolPlan::Run(ToolRequest::ListFiles { path: q }) && q@ == path
        }
    } else if name == "attempt_completion"@ {
        p matches ToolPlan::Reply(t) && t@ == "[COMPLETION]"@ + arg(args, "result"@)
    } else {
        p matches ToolPlan::Reply(t) && t@ == "Error: Unknown tool: "@ + name
    }
}

fn same(a: &str, b: &str) -> (r: bool)
    ensures
        r == (a@ == b@),
{
    string_of(a) == string_of(b)
}

fn missing_reply(param: &str) -> (r: ToolPlan)
    ensures
        r matches ToolPlan::Reply(t) && t@ == missing(param@),
{
    let mut t = string_of("Error: ");
    push_str(&mut t, param);
    push_str(&mut t, " parameter is required");
    ToolPlan::Reply(t)
}

fn line_of(args: &JsonValue, key: &str) -> (r: i32)
    ensures
        r == line_arg(*args, key@),
{
    let n: i64 = match get_i64(args, key) {
        Some(n) => n,
        None => 0,
    };
    n as i32
}

/// What a call of tool `name` with the decoded arguments `args` comes to
/// (see [`is_plan`]): a missing required argument or an unknown tool is
/// answered with an error text, `attempt_completion` with its result
/// marked as such, every other call with the work it asks for.
pub fn plan_tool(name: &str, args: &JsonValue) -> (r: ToolPlan)
    ensures
        is_plan(r, name@, *args),
{
    let path = str_or_empty(args, "path");
    if same(name, "read_file") {
        if path.as_str().is_empty() {
            return missing_reply("path");
        }
        let start_line = line_of(args, "start_line");
        let end_line = line_of(args, "end_line");
        ToolPlan::Run(ToolRequest::ReadFile { path, start_line, end_line })
    } else if same(name, "write_to_file") {
        if path.as_str().is_empty() {
            return missing_reply("path");
        }
        ToolPlan::Run(ToolRequest::WriteFile { path, content: str_or_empty(args, "content") })
    } else if same(name, "replace_in_file") {
        if path.as_str().is_empty() {
            return missing_reply("path");
        }
        let old_string = str_or_empty(args, "old_string");
        if old_string.as_str().is_empty() {
            return missing_reply("old_string");
        }
        let new_string = str_or_empty(args, "new_string");
        ToolPlan::Run(ToolRequest::ReplaceInFile { path, old_string, new_string })
    } else if same(name, "execute_command") {
        let command = str_or_empty(args, "command");
        if command.as_str().is_empty() {
            return missing_reply("command");
        }
        ToolPlan::Run(ToolRequest::ExecuteCommand { command })
    } else if same(name, "search_files") {
        let directory = str_or_empty(args, "directory");
        if directory.as_str().is_empty() {
            return missing_reply("directory");
        }
        let regex = str_or_empty(args, "regex");
        if regex.as_str().is_empty() {
            return missing_reply("regex");
        }
        let file_pattern = str_or(args, "file_pattern", "*");
        ToolPlan::Run(ToolRequest::SearchFiles { directory, regex, file_pattern })
    } else if same(name, "list_files") {
        if path.as_str().is_empty() {
            return missing_reply("path");
        }
        ToolPlan::Run(ToolRequest::ListFiles { path })
    } else if same(name, "attempt_completion") {
        let mut t = string_of("[COMPLETION]");
        push_str(&mut t, str_or_empty(args, "result").as_str());
        ToolPlan::Reply(t)
    } else {
        let mut t = string_of("Error: Unknown tool: ");
        push_str(&mut t, name);
        ToolPlan::Reply(t)
    }
}

/// `Error: ` and a message.
pub open spec fn error_text(message: Seq<char>) -> Seq<char> {
    "Error: "@ + message
}

fn error_reply(message: &str) -> (r: String)
    ensures
        r@ == error_text(message@),
{
    let mut t = string_of("Error: ");
    push_str(&mut t, message);
    t
}

/// The reply to `read_file`: the numbered lines, or the error.
pub fn read_file_reply(res: &FileReaderResult) -> (r: String)
    ensures
        res.error != FileReaderError::Success ==> r@ == error_text(res.error_message@),
        res.error == FileReaderError::Success ==> r@ == res.content@,
{
    if res.error != FileReaderError::Success {
        return error_reply(res.error_message.as_str());
    }
    string_of(res.content.as_str())
}

/// The reply to `write_to_file`.
pub fn write_file_reply(res: &FileWriterResult) -> (r: String)
    ensures
        res.error != FileWriterError::Success ==> r@ == error_text(res.error_message@),
        res.error == FileWriterError::Success ==> r@ == "File written successfully."@,
{
    if res.error != FileWriterError::Success {
        return error_reply(res.error_message.as_str());
    }
    string_of("File written successfully.")
}

/// The reply to `replace_in_file`: how many matches were replaced.
pub fn replace_in_file_reply(res: &FileEditResult) -> (r: String)
    ensures
        res.error != FileEditError::Success ==> r@ == error_text(res.error_message@),
        res.error == FileEditError::Success ==> r@ == "File updated. "@ + decimal_int(
            res.match_count as int,
        ) + " match(es) replaced."@,
{
    if res.error != FileEditError::Success {
        return error_reply(res.error_message.as_str());
    }
    let mut t = string_of("File updated. ");
    push_decimal_i64(&mut t, res.match_count as i64);
    push_str(&mut t, " match(es) replaced.");
    t
}

/// A labelled block of output (`LABEL:\n<text>\n`), or nothing for empty
/// text.
pub open spec fn output_block(label: Seq<char>, text: Seq<char>) -> Seq<char> {
    if text.len() == 0 {
        Seq::empty()
    } else {
        label + ":\n"@ + text + "\n"@
    }
}

/// The reply to `execute_command`.  `seconds` is the running time already
/// written with two decimals, given only when it is above zero.
pub open spec fn command_reply(
    stdout: Seq<char>,
    stderr: Seq<char>,
    exit_code: i32,
    abnormal: bool,
    seconds: Option<Seq<char>>,
) -> Seq<char> {
    output_block("STDOUT"@, stdout) + output_block("STDERR"@, stderr) + "Exit code: "@
        + decimal_int(exit_code as int) + (if abnormal {
        " (abnormal exit)"@
    } else {
        Seq::empty()
    }) + match seconds {
        Some(s) => "\nExecution time: "@ + s + "s"@,
        None => Seq::empty(),
    }
}

/// The reply to `execute_command` (see [`command_reply`]).
pub fn execute_command_reply(
    stdout: &str,
    stderr: &str,
    exit_code: i32,
    abnormal: bool,
    seconds: Option<&str>,
) -> (r: String)
    ensures
        r@ == command_reply(
            stdout@,
            stderr@,
            exit_code,
            abnormal,
            match seconds {
                Some(s) => Some(s@),
                None => None,
            },
        ),
{
    let mut out = String::new();
    if !stdout.is_empty() {
        push_str(&mut out, "STDOUT:\n");
        push_str(&mut out, stdout);
        push_str(&mut out, "\n");
    }
    let ghost after_out = out@;
    if !stderr.is_empty() {
        push_str(&mut out, "STDERR:\n");
        push_str(&mut out, stderr);
        push_str(&mut out, "\n");
    }
    proof {
        reveal_strlit("STDOUT");
        reveal_strlit("STDERR");
        reveal_strlit("STDOUT:\n");
        reveal_strlit("STDERR:\n");
        reveal_strlit(":\n");
        assert(after_out =~= output_block("STDOUT"@, stdout@));
        assert(out@ =~= output_block("STDOUT"@, stdout@) + output_block("STDERR"@, stderr@));
    }
    push_str(&mut out, "Exit code: ");
    push_decimal_i64(&mut out, exit_code as i64);
    if abnormal {
        push_str(&mut out, " (abnormal exit)");
    }
    if let Some(s) = seconds {
        push_str(&mut out, "\nExecution time: ");
        push_str(&mut out, s);
        push_str(&mut out, "s");
    }
    proof {
        reveal_strlit("");
    }
    assert(out@ =~= command_reply(
        stdout@,
        stderr@,
        exit_code,
        abnormal,
        match seconds {
            Some(s) => Some(s@),
            None => None,
        },
    ));
    out
}

/// The reply to `search_files`: the matches and their number.
pub fn search_files_reply(res: &SearchFilesResult) -> (r: String)
    ensures
        res.error != SearchFilesError::Success ==> r@ == error_text(res.error_message@),
        res.error == SearchFilesError::Success && res.match_count == 0 ==> r@
            == "No matches found."@,
        res.error == SearchFilesError::Success && res.match_count != 0 ==> r@ == res.results@
            + "\n("@ + decimal(res.match_count as nat) + " matches found)"@,
{
    if res.error != SearchFilesError::Success {
        return error_reply(res.error_message.as_str());
    }
    if res.match_count == 0 {
        return string_of("No matches found.");
    }
    let mut t = string_of(res.results.as_str());
    push_str(&mut t, "\n(");
    push_decimal(&mut t, res.match_count as u64);
    push_str(&mut t, " matches found)");
    t
}

/// The entries indented by two spaces, one per line.
pub open spec fn indented(entries: Seq<Seq<char>>) -> Seq<Seq<char>> {
    entries.map_values(|e: Seq<char>| "  "@ + e)
}

/// The reply to `list_files`.
pub open spec fn list_reply(entries: Seq<Seq<char>>, count: nat, hit_limit: bool) -> Seq<char> {
    if count == 0 {
        "(empty directory)"@
    } else {
        join_newline(indented(entries)) + "\n\n"@ + decimal(count) + " entries"@ + if hit_limit {
            " (list truncated at "@ + decimal(MAX_LIST_ENTRIES as nat) + ")"@
        } else {
            Seq::empty()
        }
    }
}

/// The reply to `list_files` (see [`list_reply`]).
pub fn list_files_reply(res: &ListFilesResult) -> (r: String)
    ensures
        res.error != ListFilesError::Success ==> r@ == error_text(res.error_message@),
        res.error == ListFilesError::Success ==> r@ == list_reply(
            res.entries@.map_values(|e: String| e@),
            res.count as nat,
            res.did_hit_limit,
        ),
{
    if res.error != ListFilesError::Success {
        return error_reply(res.error_message.as_str());
    }
    if res.count == 0 {
        return string_of("(empty directory)");
    }
    let ghost es = res.entries@.map_values(|e: String| e@);
    let mut lines: Vec<String> = Vec::new();
    let mut i: usize = 0;
    while i < res.entries.len()
        invariant
            i <= res.entries@.len(),
            es == res.entries@.map_values(|e: String| e@),
            lines@.map_values(|e: String| e@) == indented(es).take(i as int),
        decreases res.entries@.len() - i,
    {
        let mut line = string_of("  ");
        push_str(&mut line, res.entries[i].as_str());
        let ghost before = lines@.map_values(|e: String| e@);
        lines.push(line);
        assert(lines@.map_values(|e: String| e@) =~= before.push("  "@ + es[i as int]));
        assert(indented(es).take(i + 1) =~= indented(es).take(i as int).push("  "@ + es[i as int]));
        i += 1;
    }
    assert(indented(es).take(es.len() as int) =~= indented(es));
    let mut t = crate::text::join_strings_newline(&lines);
    push_str(&mut t, "\n\n");
    push_decimal(&mut t, res.count as u64);
    push_str(&mut t, " entries");
    if res.did_hit_limit {
        push_str(&mut t, " (list truncated at ");
        push_decimal(&mut t, MAX_LIST_ENTRIES as u64);
        push_str(&mut t, ")");
    }
    proof {
        reveal_strlit("");
    }
    t
}

/// Whether a reply reports an error (it starts with `Error:`).
pub open spec fn is_error_reply(text: Seq<char>) -> bool {
    text.len() >= 6 && text.subrange(0, 6) == "Error:"@
}

/// Whether a reply reports an error.
pub fn reply_is_error(text: &str) -> (r: bool)
    ensures
        r == is_error_reply(text@),
{
    let v = crate::text::chars_of(text);
    proof {
        reveal_strlit("Error:");
    }
    if v.len() < 6 {
        return false;
    }
    let r = v[0] == 'E' && v[1] == 'r' && v[2] == 'r' && v[3] == 'o' && v[4] == 'r' && v[5] == ':';
    assert("Error:"@ =~= seq!['E', 'r', 'r', 'o', 'r', ':']);
    if r {
        assert(text@.subrange(0, 6) =~= "Error:"@);
    } else {
        assert(text@.subrange(0, 6) != "Error:"@) by {
            if text@.subrange(0, 6) == "Error:"@ {
                assert(text@.subrange(0, 6)[0] == 'E');
                assert(text@.subrange(0, 6)[1] == 'r');
                assert(text@.subrange(0, 6)[2] == 'r');
                assert(text@.subrange(0, 6)[3] == 'o');
                assert(text@.subrange(0, 6)[4] == 'r');
                assert(text@.subrange(0, 6)[5] == ':');
            }
        }
    }
    r
}

} // verus!

verus! {

/// A tool offered to the model: its name, what it does, and the JSON
/// schema of its arguments.
#[derive(Debug)]
pub struct Tool {
    pub name: String,
    pub description: String,
    pub parameters: JsonValue,
}

/// A schema property as plain values: name, type, description.
pub type PropertyView = (Seq<char>, Seq<char>, Seq<char>);

/// Whether member `m` of a `properties` object is the property `p`:
/// `{"type": .., "description": ..}` under its name.
pub open spec fn is_property(m: (String, JsonValue), p: PropertyView) -> bool {
    &&& m.0@ == p.0
    &&& m.1 matches JsonValue::Object(f)
    &&& f@.len() == 2
    &&& f@[0].0@ == "type"@
    &&& f@[0].1 matches JsonValue::Str(t)
    &&& t@ == p.1
    &&& f@[1].0@ == "description"@
    &&& f@[1].1 matches JsonValue::Str(d)
    &&& d@ == p.2
}

/// Whether `v` is an array of exactly the strings `items`.
pub open spec fn is_string_array(v: JsonValue, items: Seq<Seq<char>>) -> bool {
    &&& v matches JsonValue::Array(a)
    &&& a@.len() == items.len()
    &&& forall|i: int| 0 <= i < items.len() ==> as_str_spec(#[trigger] a@[i]) == Some(items[i])
}

/// Whether `v` is the object schema `{"type": "object", "properties":
/// {..props}, "required": [..required]}`.
pub open spec fn is_schema(v: JsonValue, props: Seq<PropertyView>, required: Seq<Seq<char>>) -> bool {
    &&& v matches JsonValue::Object(f)
    &&& f@.len() == 3
    &&& f@[0].0@ == "type"@
    &&& f@[0].1 matches JsonValue::Str(t)
    &&& t@ == "object"@
    &&& f@[1].0@ == "properties"@
    &&& f@[1].1 matches JsonValue::Object(ps)
    &&& ps@.len() == props.len()
    &&& forall|i: int| 0 <= i < props.len() ==> is_property(#[trigger] ps@[i], props[i])
    &&& f@[2].0@ == "required"@
    &&& is_string_array(f@[2].1, required)
}

/// The tools offered to the model, in order: name, description,
/// properties, required arguments.
pub open spec fn tool_table() -> Seq<(Seq<char>, Seq<char>, Seq<PropertyView>, Seq<Seq<char>>)> {
    let path_prop = ("path"@, "string"@, "File path relative to workspace root"@);
    seq![
        (
            "read_file"@,
            "Read the contents of a file at the specified path. Returns content with line numbers."@,
            seq![
                path_prop,
                ("start_line"@, "integer"@, "1-based start line (default: 1)"@),
                ("end_line"@, "integer"@, "1-based end line (default: start_line + 1000)"@),
            ],
            seq!["path"@],
        ),
        (
            "write_to_file"@,
            "Write content to a file at the specified path. Creates the file if it doesn't exist."@,
            seq![path_prop, ("content"@, "string"@, "Content to write to the file"@)],
            seq!["path"@, "content"@],
        ),
        (
            "replace_in_file"@,
            "Replace exact string matches in a file. Used for editing existing files."@,
            seq![
                path_prop,
                ("old_string"@, "string"@, "The exact line to match and replace"@),
                ("new_string"@, "string"@, "The replacement line content"@),
            ],
            seq!["path"@, "old_string"@, "new_string"@],
        ),
        (
            "execute_command"@,
            "Execute a shell command on the system. Returns stdout, stderr, and exit code."@,
            seq![("command"@, "string"@, "Shell command to execute"@)],
            seq!["command"@],
        ),
        (
            "search_files"@,
            "Search for regex pattern matches in files within a directory. Supports glob file pattern filtering."@,
            seq![
                ("directory"@, "string"@, "Directory to search in"@),
                ("regex"@, "string"@, "Regular expression pattern to search for"@),
                ("file_pattern"@, "string"@, "Optional glob pattern to filter files (e.g. *.rs)"@),
            ],
            seq!["directory"@, "regex"@],
        ),
        (
            "list_files"@,
            "List files and directories at the specified path."@,
            seq![("path"@, "string"@, "Directory path to list"@)],
            seq!["path"@],
        ),
        (
            "attempt_completion"@,
            "Signal that the task is complete. Provide a result summary for the user."@,
            seq![("result"@, "string"@, "Summary of what was accomplished"@)],
            seq!["result"@],
        ),
    ]
}

/// Whether `t` is the tool described by row `row` of the table.
pub open spec fn is_tool(t: Tool, row: (Seq<char>, Seq<char>, Seq<PropertyView>, Seq<Seq<char>>)) -> bool {
    &&& t.name@ == row.0
    &&& t.description@ == row.1
    &&& is_schema(t.parameters, row.2, row.3)
}

fn property(name: &str, ty: &str, description: &str) -> (r: (String, JsonValue))
    ensures
        is_property(r, (name@, ty@, description@)),
{
    (
        string_of(name),
        JsonValue::Object(
            vec![
                (string_of("type"), JsonValue::Str(string_of(ty))),
                (string_of("description"), JsonValue::Str(string_of(description))),
            ],
        ),
    )
}

fn string_array(items: Vec<&str>) -> (r: JsonValue)
    ensures
        is_string_array(r, items@.map_values(|s: &str| s@)),
{
    let mut out: Vec<JsonValue> = Vec::new();
    let mut i: usize = 0;
    while i < items.len()
        invariant
            i <= items@.len(),
            out@.len() == i,
            forall|k: int| 0 <= k < i ==> as_str_spec(#[trigger] out@[k]) == Some(items@[k]@),
        decreases items@.len() - i,
    {
        out.push(JsonValue::Str(string_of(items[i])));
        i += 1;
    }
    JsonValue::Array(out)
}

fn schema(props: Vec<(String, JsonValue)>, required: Vec<&str>) -> (r: JsonValue)
    ensures
        r matches JsonValue::Object(f) && f@.len() == 3 && f@[0].0@ == "type"@ && (f@[0].1 matches JsonValue::Str(t) && t@ == "object"@)
            && f@[1].0@ == "properties"@ && f@[1].1 == JsonValue::Object(props) && f@[2].0@ == "required"@
            && is_string_array(f@[2].1, required@.map_values(|s: &str| s@)),
{
    JsonValue::Object(
        vec![
            (string_of("type"), JsonValue::Str(string_of("object"))),
            (string_of("properties"), JsonValue::Object(props)),
            (string_of("required"), string_array(required)),
        ],
    )
}

fn path_property() -> (r: (String, JsonValue))
    ensures
        is_property(r, tool_table()[0].2[0]),
{
    property("path", "string", "File path relative to workspace root")
}

fn make_tool(name: &str, description: &str, props: Vec<(String, JsonValue)>, required: Vec<&str>, row: Ghost<(Seq<char>, Seq<char>, Seq<PropertyView>, Seq<Seq<char>>)>) -> (t: Tool)
    requires
        name@ == row@.0,
        description@ == row@.1,
        props@.len() == row@.2.len(),
        forall|i: int| 0 <= i < props@.len() ==> is_property(#[trigger] props@[i], row@.2[i]),
        required@.map_values(|s: &str| s@) == row@.3,
    ensures
        is_tool(t, row@),
{
    Tool { name: string_of(name), description: string_of(description), parameters: schema(props, required) }
}

/// The tools offered to the model (see [`tool_table`]).
pub fn get_tool_definitions() -> (r: Vec<Tool>)
    ensures
        r@.len() == tool_table().len(),
        forall|i: int| 0 <= i < r@.len() ==> is_tool(#[trigger] r@[i], tool_table()[i]),
{
    let ghost t = tool_table();
    let mut out: Vec<Tool> = Vec::new();
    let req = vec!["path"];
    assert(req@.map_values(|s: &str| s@) =~= t[0].3);
    out.push(make_tool(
        "read_file",
        "Read the contents of a file at the specified path. Returns content with line numbers.",
        vec![
            path_property(),
            property("start_line", "integer", "1-based start line (default: 1)"),
            property("end_line", "integer", "1-based end line (default: start_line + 1000)"),
        ],
        req,
        Ghost(t[0]),
    ));
    let req = vec!["path", "content"];
    assert(req@.map_values(|s: &str| s@) =~= t[1].3);
    out.push(make_tool(
        "write_to_file",
        "Write content to a file at the specified path. Creates the file if it doesn't exist.",
        vec![path_property(), property("content", "string", "Content to write to the file")],
        req,
        Ghost(t[1]),
    ));
    let req = vec!["path", "old_string", "new_string"];
    assert(req@.map_values(|s: &str| s@) =~= t[2].3);
    out.push(make_tool(
        "replace_in_file",
        "Replace exact string matches in a file. Used for editing existing files.",
        vec![
            path_property(),
            property("old_string", "string", "The exact line to match and replace"),
            property("new_string", "string", "The replacement line content"),
        ],
        req,
        Ghost(t[2]),
    ));
    let req = vec!["command"];
    assert(req@.map_values(|s: &str| s@) =~= t[3].3);
    out.push(make_tool(
        "execute_command",
        "Execute a shell command on the system. Returns stdout, stderr, and exit code.",
        vec![property("command", "string", "Shell command to execute")],
        req,
        Ghost(t[3]),
    ));
    let req = vec!["directory", "regex"];
    assert(req@.map_values(|s: &str| s@) =~= t[4].3);
    out.push(make_tool(
        "search_files",
        "Search for regex pattern matches in files within a directory. Supports glob file pattern filtering.",
        vec![
            property("directory", "string", "Directory to search in"),
            property("regex", "string", "Regular expression pattern to search for"),
            property("file_pattern", "string", "Optional glob pattern to filter files (e.g. *.rs)"),
        ],
        req,
        Ghost(t[4]),
    ));
    let req = vec!["path"];
    assert(req@.map_values(|s: &str| s@) =~= t[5].3);
    out.push(make_tool(
        "list_files",
        "List files and directories at the specified path.",
        vec![property("path", "string", "Directory path to list")],
        req,
        Ghost(t[5]),
    ));
    let req = vec!["result"];
    assert(req@.map_values(|s: &str| s@) =~= t[6].3);
    out.push(make_tool(
        "attempt_completion",
        "Signal that the task is complete. Provide a result summary for the user.",
        vec![property("result", "string", "Summary of what was accomplished")],
        req,
        Ghost(t[6]),
    ));
    out
}

} // verus!
