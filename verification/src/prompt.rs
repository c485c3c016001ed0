//! The system prompt the agent starts every conversation with, and the
//! shells it names.  Reading the environment is the caller's part.
use vstd::prelude::*;
use crate::text::{chars_of, push_str, string_from_chars, string_of};

verus! {

/// A shell found on the system.
#[derive(Debug, Clone)]
pub struct ShellInfo {
    pub name: String,
    pub path: String,
    pub found: bool,
}

/// The index of the last `/` in `p`, or -1.
pub open spec fn last_slash(p: Seq<char>) -> int
    decreases p.len(),
{
    if p.len() == 0 {
        -1
    } else if p.last() == '/' {
        p.len() - 1
    } else {
        last_slash(p.drop_last())
    }
}

/// The last component of a Unix path the way `Path::file_name` reads it,
/// as text (empty when there is none): trailing `/` are ignored, a final
/// `.` after a `/` is passed over, and a final `..`, a lone `.`, the root
/// or nothing at all give no name.
pub open spec fn path_file_name(p: Seq<char>) -> Seq<char>
    decreases p.len(),
{
    if p.len() == 0 {
        Seq::empty()
    } else if p.last() == '/' {
        path_file_name(p.drop_last())
    } else {
        let i = last_slash(p);
        let seg = p.skip(i + 1);
        if seg == seq!['.'] {
            if i >= 0 {
                proof {
                    lemma_last_slash(p);
                }
                path_file_name(p.take(i))
            } else {
                Seq::empty()
            }
        } else if seg == seq!['.', '.'] {
            Seq::empty()
        } else {
            seg
        }
    }
}

pub proof fn lemma_last_slash(p: Seq<char>)
    ensures
        -1 <= last_slash(p) < p.len(),
        last_slash(p) >= 0 ==> p[last_slash(p)] == '/',
        forall|j: int| last_slash(p) < j < p.len() ==> p[j] != '/',
    decreases p.len(),
{
    if p.len() > 0 && p.last() != '/' {
        lemma_last_slash(p.drop_last());
        assert forall|j: int| last_slash(p) < j < p.len() implies p[j] != '/' by {
            if j < p.len() - 1 {
                assert(p.drop_last()[j] == p[j]);
            }
        }
    }
}

proof fn lemma_last_slash_at(p: Seq<char>, i: int)
    requires
        -1 <= i < p.len(),
        i >= 0 ==> p[i] == '/',
        forall|j: int| i < j < p.len() ==> p[j] != '/',
    ensures
        last_slash(p) == i,
    decreases p.len(),
{
    if p.len() > 0 && i < p.len() - 1 {
        lemma_last_slash_at(p.drop_last(), i);
    }
}

/// The last component of `path` (see [`path_file_name`]).
fn file_name_of(path: &str) -> (r: String)
    ensures
        r@ == path_file_name(path@),
{
    let cs = chars_of(path);
    let ghost p = path@;
    let mut end: usize = cs.len();
    assert(p.take(end as int) =~= p);
    loop
        invariant
            p == path@,
            end <= cs@.len(),
            cs@ == p,
            path_file_name(p) == path_file_name(p.take(end as int)),
        decreases end,
    {
        let ghost e0 = end;
        while end > 0 && cs[end - 1] == '/'
            invariant
                end <= e0,
                end <= cs@.len(),
                cs@ == p,
                path_file_name(p) == path_file_name(p.take(end as int)),
            decreases end,
        {
            assert(p.take(end as int).drop_last() =~= p.take(end - 1));
            end -= 1;
        }
        if end == 0 {
            assert(p.take(0) =~= Seq::<char>::empty());
            return String::new();
        }
        let ghost q = p.take(end as int);
        assert(q.len() > 0 && q.last() == cs@[end - 1] && q.last() != '/');
        let mut i: usize = end;
        while i > 0 && cs[i - 1] != '/'
            invariant
                i <= end <= cs@.len(),
                cs@ == p,
                forall|j: int| i <= j < end ==> p[j] != '/',
            decreases i,
        {
            i -= 1;
        }
        proof {
            lemma_last_slash_at(q, i - 1);
        }
        let seg_len = end - i;
        assert(q.skip(i as int) =~= p.subrange(i as int, end as int));
        assert(last_slash(q) == i - 1);
        assert(path_file_name(q) == {
            let seg = q.skip(i as int);
            if seg == seq!['.'] {
                if i - 1 >= 0 {
                    path_file_name(q.take(i - 1))
                } else {
                    Seq::<char>::empty()
                }
            } else if seg == seq!['.', '.'] {
                Seq::<char>::empty()
            } else {
                seg
            }
        });
        if seg_len == 1 && cs[i] == '.' {
            assert(q.skip(i as int) =~= seq!['.']);
            if i == 0 {
                return String::new();
            }
            assert(q.take(i - 1) =~= p.take(i - 1));
            assert(i - 1 < e0);
            end = i - 1;
        } else if seg_len == 2 && cs[i] == '.' && cs[i + 1] == '.' {
            assert(q.skip(i as int) =~= seq!['.', '.']);
            return String::new();
        } else {
            proof {
                if q.skip(i as int) == seq!['.'] {
                    assert(q.skip(i as int)[0] == cs@[i as int]);
                }
                if q.skip(i as int) == seq!['.', '.'] {
                    assert(q.skip(i as int)[0] == cs@[i as int]);
                    assert(q.skip(i as int)[1] == cs@[i + 1]);
                }
            }
            return string_from_chars(&cs, i, end);
        }
    }
}

/// The shells named by the value of the `SHELL` variable: the one it
/// names, if it is set and not empty.
pub fn shells_from_env(shell: Option<&str>) -> (r: Vec<ShellInfo>)
    ensures
        match shell {
            Some(s) if s@.len() != 0 => {
                &&& r@.len() == 1
                &&& r@[0].name@ == path_file_name(s@)
                &&& r@[0].path@ == s@
                &&& r@[0].found
            },
            _ => r@.len() == 0,
        },
{
    let mut result: Vec<ShellInfo> = Vec::new();
    if let Some(s) = shell {
        if !s.is_empty() {
            result.push(ShellInfo { name: file_name_of(s), path: string_of(s), found: true });
        }
    }
    result
}

/// The shell the prompt names: the first one, if it was found.
pub open spec fn default_shell(shells: Seq<ShellInfo>) -> Seq<char> {
    if shells.len() != 0 && shells[0].found {
        shells[0].name@
    } else {
        "unknown"@
    }
}

/// The fixed part of the system prompt: the role, how tools are used,
/// the tools, and the rules.
pub const SYSTEM_PROMPT_HEAD: &'static str = "You are Crown Code, a highly skilled software engineer with extensive knowledge in many programming languages, frameworks, design patterns, and best practices.\n\nTOOL USE\nYou have access to a set of tools that are executed upon the user's approval. To use a tool, respond with a tool call in the OpenAI function calling format. After each tool use, you will receive the result. Continue using tools until the task is complete, then use the attempt_completion tool.\n\nAVAILABLE TOOLS\n- read_file(path, start_line?, end_line?): Read the contents of a file at the specified path.\n- write_to_file(path, content): Write content to a file at the specified path.\n- replace_in_file(path, old_string, new_string): Replace exact string matches in a file.\n- execute_command(command): Execute a shell command on the system.\n- search_files(directory, regex, file_pattern?): Search for regex pattern matches in files.\n- list_files(path): List files and directories at the specified path.\n- attempt_completion(result): Signal that the task is complete.\n\nRULES\n- Always use tools to accomplish tasks; do not fabricate results.\n- Use read_file to examine files before editing them.\n- Prefer replace_in_file for editing existing files.\n- Use write_to_file only for creating new files.\n- Verify changes after making them.\n\n";

/// The system prompt for working in `cwd` on operating system `os`.
pub open spec fn prompt_text(cwd: Seq<char>, os: Seq<char>, shells: Seq<ShellInfo>) -> Seq<char> {
    SYSTEM_PROMPT_HEAD@ + "SYSTEM INFORMATION\nOperating System: "@ + os + "\nDefault Shell: "@
        + default_shell(shells) + "\nCurrent Working Directory: "@ + cwd + "\n"@
}

/// The system prompt (see [`prompt_text`]); `os` is the name of the
/// operating system and `shells` the shells found on it.
pub fn build_system_prompt(cwd: &str, os: &str, shells: &[ShellInfo]) -> (r: String)
    ensures
        r@ == prompt_text(cwd@, os@, shells@),
{
    let mut prompt = string_of(SYSTEM_PROMPT_HEAD);
    push_str(&mut prompt, "SYSTEM INFORMATION\nOperating System: ");
    push_str(&mut prompt, os);
    push_str(&mut prompt, "\nDefault Shell: ");
    if shells.len() != 0 && shells[0].found {
        push_str(&mut prompt, shells[0].name.as_str());
    } else {
        push_str(&mut prompt, "unknown");
    }
    push_str(&mut prompt, "\nCurrent Working Directory: ");
    push_str(&mut prompt, cwd);
    push_str(&mut prompt, "\n");
    prompt
}

} // verus!
