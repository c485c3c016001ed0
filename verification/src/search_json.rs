//! JSON-lines records of a search: a start record, one record per match,
//! and an end record.
use vstd::prelude::*;
use crate::context::Context;
use crate::search::Match;
use crate::text::{chars_of, push_char, push_decimal, push_str};

verus! {

/// The JSON escape of one character.
pub open spec fn escape_char(c: char) -> Seq<char> {
    if c == '"' {
        seq!['\\', '"']
    } else if c == '\\' {
        seq!['\\', '\\']
    } else if c == '\n' {
        seq!['\\', 'n']
    } else if c == '\t' {
        seq!['\\', 't']
    } else if c == '\r' {
        seq!['\\', 'r']
    } else {
        seq![c]
    }
}

/// The escaped characters of `s`, without quotes.
pub open spec fn escape_body(s: Seq<char>) -> Seq<char>
    decreases s.len(),
{
    if s.len() == 0 {
        Seq::empty()
    } else {
        escape_body(s.drop_last()) + escape_char(s.last())
    }
}

/// `s` as a quoted JSON string.
pub open spec fn json_string(s: Seq<char>) -> Seq<char> {
    seq!['"'] + escape_body(s) + seq!['"']
}

/// The quoted JSON strings of `lines`, separated by commas.
pub open spec fn json_string_list(lines: Seq<Seq<char>>) -> Seq<char>
    decreases lines.len(),
{
    if lines.len() == 0 {
        Seq::empty()
    } else if lines.len() == 1 {
        json_string(lines[0])
    } else {
        json_string_list(lines.drop_last()) + seq![','] + json_string(lines.last())
    }
}

/// Quotes `s` as a JSON string, escaping `"`, `\`, newline, tab and
/// carriage return.
pub fn json_escape(s: &str) -> (r: String)
    ensures
        r@ == json_string(s@),
{
    let chars = chars_of(s);
    let mut result = String::new();
    push_char(&mut result, '"');
    let mut i: usize = 0;
    while i < chars.len()
        invariant
            i <= chars@.len(),
            result@ == seq!['"'] + escape_body(chars@.take(i as int)),
        decreases chars@.len() - i,
    {
        let c = chars[i];
        let ghost before = result@;
        if c == '"' {
            push_char(&mut result, '\\');
            push_char(&mut result, '"');
        } else if c == '\\' {
            push_char(&mut result, '\\');
            push_char(&mut result, '\\');
        } else if c == '\n' {
            push_char(&mut result, '\\');
            push_char(&mut result, 'n');
        } else if c == '\t' {
            push_char(&mut result, '\\');
            push_char(&mut result, 't');
        } else if c == '\r' {
            push_char(&mut result, '\\');
            push_char(&mut result, 'r');
        } else {
            push_char(&mut result, c);
        }
        assert(result@ == before + escape_char(c));
        i += 1;
        assert(chars@.take(i as int).drop_last() =~= chars@.take(i - 1));
        assert(result@ =~= seq!['"'] + escape_body(chars@.take(i as int)));
    }
    push_char(&mut result, '"');
    assert(chars@.take(chars@.len() as int) =~= s@);
    assert(result@ =~= json_string(s@));
    result
}

/// The record that opens the results for one file.
pub open spec fn start_record(path: Seq<char>) -> Seq<char> {
    "{\"type\":\"start\",\"path\":"@ + json_string(path) + "}\n"@
}

/// The record that opens the results for `path`.
pub fn format_start_json(path: &str) -> (r: String)
    ensures
        r@ == start_record(path@),
{
    let mut result = String::new();
    push_str(&mut result, "{\"type\":\"start\",\"path\":");
    let escaped = json_escape(path);
    push_str(&mut result, escaped.as_str());
    push_str(&mut result, "}\n");
    assert(result@ =~= start_record(path@));
    result
}

/// The record that closes the results.
pub fn format_end_json() -> (r: String)
    ensures
        r@ == "{\"type\":\"end\"}\n"@,
{
    crate::text::string_of("{\"type\":\"end\"}\n")
}

/// The optional context part of a match record.
pub open spec fn context_part(before: Seq<Seq<char>>, after: Seq<Seq<char>>) -> Seq<char> {
    (if before.len() > 0 {
        ",\"context_before\":["@ + json_string_list(before) + "]"@
    } else {
        Seq::empty()
    }) + (if after.len() > 0 {
        ",\"context_after\":["@ + json_string_list(after) + "]"@
    } else {
        Seq::empty()
    })
}

/// The record of one match, with the context lines when given.
pub open spec fn match_record(
    path: Seq<char>,
    line_number: nat,
    column_start: nat,
    column_end: nat,
    line: Seq<char>,
    context: Seq<char>,
) -> Seq<char> {
    "{\"type\":\"match\","@ + "\"path\":"@ + json_string(path) + ",\"line_number\":"@
        + crate::text::decimal(line_number) + ",\"columns\":{\"start\":"@ + crate::text::decimal(
        column_start,
    ) + ",\"end\":"@ + crate::text::decimal(column_end) + "},\"line\":"@ + json_string(line)
        + context + "}\n"@
}

fn push_json_list(result: &mut String, lines: &[String])
    ensures
        final(result)@ == old(result)@ + json_string_list(lines@.map_values(|s: String| s@)),
{
    let ghost ls = lines@.map_values(|s: String| s@);
    let ghost start = result@;
    let mut i: usize = 0;
    while i < lines.len()
        invariant
            i <= lines@.len(),
            ls == lines@.map_values(|s: String| s@),
            result@ == start + json_string_list(ls.take(i as int)),
        decreases lines@.len() - i,
    {
        let ghost before = result@;
        if i > 0 {
            push_char(result, ',');
        }
        let escaped = json_escape(lines[i].as_str());
        push_str(result, escaped.as_str());
        i += 1;
        assert(ls.take(i as int).drop_last() =~= ls.take(i - 1));
        if i == 1 {
            assert(result@ =~= start + json_string_list(ls.take(i as int)));
        } else {
            assert(result@ =~= start + json_string_list(ls.take(i as int)));
        }
    }
    assert(ls.take(lines@.len() as int) =~= ls);
}

/// The record of one match; the context lines are added when a context is
/// given and has lines on that side.
pub fn format_match_json(match_data: &Match, ctx: Option<&Context>) -> (r: String)
    requires
        ctx matches Some(c) ==> c.wf(),
    ensures
        r@ == match_record(
            match_data.path@,
            match_data.line_number as nat,
            match_data.column_start as nat,
            match_data.column_end as nat,
            match_data.line@,
            match ctx {
                Some(c) => context_part(c.before(), c.after()),
                None => Seq::empty(),
            },
        ),
{
    let mut result = String::new();
    push_str(&mut result, "{\"type\":\"match\",");
    push_str(&mut result, "\"path\":");
    let p = json_escape(match_data.path.as_str());
    push_str(&mut result, p.as_str());
    push_str(&mut result, ",\"line_number\":");
    push_decimal(&mut result, match_data.line_number as u64);
    push_str(&mut result, ",\"columns\":{\"start\":");
    push_decimal(&mut result, match_data.column_start as u64);
    push_str(&mut result, ",\"end\":");
    push_decimal(&mut result, match_data.column_end as u64);
    push_str(&mut result, "},\"line\":");
    let l = json_escape(match_data.line.as_str());
    push_str(&mut result, l.as_str());
    let ghost head = result@;
    match ctx {
        Some(c) => {
            let before = c.lines_before();
            let after = c.lines_after();
            if before.len() > 0 {
                push_str(&mut result, ",\"context_before\":[");
                push_json_list(&mut result, before);
                push_char(&mut result, ']');
            }
            let ghost mid = result@;
            if after.len() > 0 {
                push_str(&mut result, ",\"context_after\":[");
                push_json_list(&mut result, after);
                push_char(&mut result, ']');
            }
            assert("]"@ =~= seq![']']) by {
                reveal_strlit("]");
            }
            assert(result@ =~= head + context_part(c.before(), c.after()));
        },
        None => {
            assert(result@ =~= head + Seq::<char>::empty());
        },
    }
    push_str(&mut result, "}\n");
    assert(result@ =~= match_record(
        match_data.path@,
        match_data.line_number as nat,
        match_data.column_start as nat,
        match_data.column_end as nat,
        match_data.line@,
        match ctx {
            Some(c) => context_part(c.before(), c.after()),
            None => Seq::empty(),
        },
    ));
    result
}

/// Text without quotes, backslashes, newlines, tabs or carriage returns is
/// left as it is by escaping.
pub proof fn law_escape_keeps_plain_text(s: Seq<char>)
    requires
        forall|k: int|
            0 <= k < s.len() ==> s[k] != '"' && s[k] != '\\' && s[k] != '\n' && s[k] != '\t'
                && s[k] != '\r',
    ensures
        escape_body(s) == s,
    decreases s.len(),
{
    if s.len() > 0 {
        law_escape_keeps_plain_text(s.drop_last());
        assert(s.drop_last().push(s.last()) =~= s);
    }
}

} // verus!
