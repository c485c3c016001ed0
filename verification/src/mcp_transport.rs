//! What the MCP transports decide about the bytes they move: how a line
//! read from a server process is reported, how a reply to an HTTP request
//! is taken apart, and why a streaming request was refused.  Processes,
//! sockets and reading are the caller's part.
use vstd::prelude::*;
use vstd::string::StringSliceAdditionalSpecFns;
use std::collections::HashMap;
use crate::json::{decode_json, get_spec, json_value_of, str_member, JsonValue};
use crate::sse::{events_view, feed_spec, flush_spec, initial_state, EventView, SseEvent, SseParser};
use crate::text::{chars_of, decimal, push_char, push_chars, push_decimal, push_str, string_of};

verus! {

pub const MCP_LINE_BUF_SIZE: usize = 1048576;
pub const DEFAULT_LINE_TIMEOUT_MS: u64 = 30000;
pub const DEFAULT_HTTP_TIMEOUT_MS: u64 = 30000;
pub const MAX_RESPONSE_SIZE: usize = 10485760;
pub const SSE_READ_TIMEOUT_MS: u64 = 120000;

/// How an operation on a server process ended.
#[derive(Debug, Clone, Copy, PartialEq, Eq, Structural)]
pub enum TransportError {
    Success,
    Timeout,
    WriteError,
    ReadError,
    Eof,
    SpawnFailed,
}

/// A line read from a server process, and how reading it ended.
#[derive(Debug)]
pub struct ReadLineResult {
    pub line: String,
    pub error: TransportError,
}

/// What reading one line gave.
#[derive(Debug)]
pub enum LineRead {
    /// No line came in time.
    TimedOut,
    /// Reading failed.
    Failed,
    /// The text read up to and with its newline; empty at the end of the
    /// stream.
    Text(String),
}

/// A line without its line ending (`\n`, or `\r\n`).
pub open spec fn strip_line_end(s: Seq<char>) -> Seq<char> {
    if s.len() > 0 && s.last() == '\n' {
        let t = s.drop_last();
        if t.len() > 0 && t.last() == '\r' {
            t.drop_last()
        } else {
            t
        }
    } else {
        s
    }
}

/// How reading a line is reported: the line without its ending, or why
/// there is none.
pub fn read_line_result(read: LineRead) -> (r: ReadLineResult)
    ensures
        match read {
            LineRead::TimedOut => r.line@.len() == 0 && r.error == TransportError::Timeout,
            LineRead::Failed => r.line@.len() == 0 && r.error == TransportError::ReadError,
            LineRead::Text(t) => if t@.len() == 0 {
                r.line@.len() == 0 && r.error == TransportError::Eof
            } else {
                r.line@ == strip_line_end(t@) && r.error == TransportError::Success
            },
        },
{
    match read {
        LineRead::TimedOut => ReadLineResult { line: String::new(), error: TransportError::Timeout },
        LineRead::Failed => ReadLineResult { line: String::new(), error: TransportError::ReadError },
        LineRead::Text(t) => {
            let v = chars_of(t.as_str());
            if v.len() == 0 {
                return ReadLineResult { line: String::new(), error: TransportError::Eof };
            }
            let mut end = v.len();
            if v[end - 1] == '\n' {
                end = end - 1;
                if end > 0 && v[end - 1] == '\r' {
                    end = end - 1;
                }
            }
            let mut line = String::new();
            push_chars(&mut line, &v, 0, end);
            assert(v@.subrange(0, end as int) =~= strip_line_end(t@));
            ReadLineResult { line, error: TransportError::Success }
        },
    }
}

/// The bytes written for one message: the line and a newline.
pub fn json_line_payload(line: &str) -> (r: String)
    ensures
        r@ == line@.push('\n'),
{
    let mut s = string_of(line);
    push_char(&mut s, '\n');
    s
}

/// The reply to an HTTP request: its status (0 when none came), headers
/// (names in lower case), body, the error met, and the events of an
/// event-stream reply.
#[derive(Debug, Clone)]
pub struct HttpResponse {
    pub status_code: i32,
    pub headers: HashMap<String, String>,
    pub body: String,
    pub error: String,
    pub events: Vec<SseEvent>,
}

/// The events of a whole event stream read at once.
pub open spec fn whole_stream(text: Seq<char>) -> Seq<EventView> {
    let (st, evs) = feed_spec(initial_state(), text);
    evs + flush_spec(st).1
}

/// The events of a whole event stream read at once: those completed by
/// the text, then those its end completes.
pub fn whole_stream_events(text: &str) -> (r: Vec<SseEvent>)
    ensures
        events_view(r@) == whole_stream(text@),
{
    let mut parser = SseParser::new();
    let mut events = parser.feed(text);
    let mut rest = parser.flush();
    let ghost a = events@;
    let ghost b = rest@;
    events.append(&mut rest);
    assert(events_view(events@) =~= events_view(a) + events_view(b));
    events
}

/// Reading a whole stream at once gives the same events as feeding it to
/// a parser in two pieces and then flushing it, unless the first piece
/// ends with `\r` (a `\r\n` pair would be split).
pub proof fn law_whole_stream_in_pieces(a: Seq<char>, b: Seq<char>)
    requires
        a.len() == 0 || a.last() != '\r',
    ensures
        whole_stream(a + b) == ({
            let (s1, e1) = feed_spec(initial_state(), a);
            let (s2, e2) = feed_spec(s1, b);
            e1 + e2 + flush_spec(s2).1
        }),
{
    assert(!initial_state().buf.contains('\r'));
    crate::sse::law_feed_in_pieces(initial_state(), a, b);
}

/// Whether a content type announces an event stream.
pub open spec fn is_event_stream(content_type: Seq<char>) -> bool {
    content_type.len() >= 17 && content_type.subrange(0, 17) == "text/event-stream"@
}

fn event_stream_type(content_type: &str) -> (r: bool)
    ensures
        r == is_event_stream(content_type@),
{
    let v = chars_of(content_type);
    let p = chars_of("text/event-stream");
    proof {
        reveal_strlit("text/event-stream");
    }
    if v.len() < p.len() {
        return false;
    }
    let mut i: usize = 0;
    while i < p.len()
        invariant
            p@ == "text/event-stream"@,
            p@.len() == 17,
            v@ == content_type@,
            p@.len() <= v@.len(),
            i <= p@.len(),
            forall|j: int| 0 <= j < i ==> v@[j] == p@[j],
        decreases p@.len() - i,
    {
        if v[i] != p[i] {
            assert(v@.subrange(0, 17)[i as int] != p@[i as int]);
            return false;
        }
        i += 1;
    }
    assert(v@.subrange(0, 17) =~= p@);
    true
}

/// The reply to a request that got no answer: status 0 and the error.
pub fn failed_response(error: String) -> (r: HttpResponse)
    ensures
        r.status_code == 0,
        r.headers@ == Map::<String, String>::empty(),
        r.body@.len() == 0,
        r.error@ == error@,
        r.events@.len() == 0,
{
    HttpResponse { status_code: 0, headers: HashMap::new(), body: String::new(), error, events: Vec::new() }
}

/// The reply to a request that got an answer with `status_code`,
/// `headers` and content type `content_type`, whose body read gave `body`
/// (the text, or why reading failed): an event stream is taken apart into
/// its events, anything else kept as the body; a failed read leaves the
/// error `read error: ..`.
pub fn answered_response(
    status_code: i32,
    headers: HashMap<String, String>,
    content_type: &str,
    body: Result<String, String>,
) -> (r: HttpResponse)
    ensures
        r.status_code == status_code,
        r.headers@ == headers@,
        match body {
            Err(e) => r.body@.len() == 0 && r.error@ == "read error: "@ + e@ && r.events@.len() == 0,
            Ok(t) => r.error@.len() == 0 && if is_event_stream(content_type@) {
                r.body@.len() == 0 && events_view(r.events@) == whole_stream(t@)
            } else {
                r.body@ == t@ && r.events@.len() == 0
            },
        },
{
    match body {
        Err(e) => {
            let mut m = string_of("read error: ");
            push_str(&mut m, e.as_str());
            HttpResponse { status_code, headers, body: String::new(), error: m, events: Vec::new() }
        },
        Ok(t) => {
            if event_stream_type(content_type) {
                let events = whole_stream_events(t.as_str());
                HttpResponse { status_code, headers, body: String::new(), error: String::new(), events }
            } else {
                HttpResponse { status_code, headers, body: t, error: String::new(), events: Vec::new() }
            }
        },
    }
}

/// The longest body quoted whole in a refusal, in bytes.
pub const MAX_QUOTED_BODY: usize = 500;

/// A body as quoted in a refusal: whole when it has at most 500 bytes,
/// else its first 500 characters and its size.
pub open spec fn quoted_body(body: Seq<char>, byte_len: nat) -> Seq<char> {
    if byte_len > MAX_QUOTED_BODY {
        body.take(if body.len() < MAX_QUOTED_BODY { body.len() as int } else { MAX_QUOTED_BODY as int })
            + "...(truncated, "@ + decimal(byte_len) + " bytes total)"@
    } else {
        body
    }
}

fn quote_body(body: &str) -> (r: String)
    ensures
        r@ == quoted_body(body@, body.spec_bytes().len()),
{
    let n = body.as_bytes().len();
    if n > MAX_QUOTED_BODY {
        let v = chars_of(body);
        let k = if v.len() < MAX_QUOTED_BODY { v.len() } else { MAX_QUOTED_BODY };
        let mut s = String::new();
        push_chars(&mut s, &v, 0, k);
        assert(v@.subrange(0, k as int) =~= body@.take(k as int));
        push_str(&mut s, "...(truncated, ");
        push_decimal(&mut s, n as u64);
        push_str(&mut s, " bytes total)");
        s
    } else {
        string_of(body)
    }
}

/// What `str::to_lowercase` gives.
pub uninterp spec fn str_lowercase(s: Seq<char>) -> Seq<char>;

/// `str::to_lowercase`: `s` in lower case.  The contract names the result
/// and claims nothing else of it.
#[verifier::external_body]
fn lowercase(s: &str) -> (r: String)
    ensures
        r@ == str_lowercase(s@),
{
    s.to_lowercase()
}

/// Whether a response's content type, in any letter case, announces an
/// event stream.
pub fn announces_event_stream(content_type: &str) -> (r: bool)
    ensures
        r == is_event_stream(str_lowercase(content_type@)),
{
    let l = lowercase(content_type);
    event_stream_type(l.as_str())
}

/// Why a streaming request answered with a body that is not an event
/// stream was refused.  `body` is what reading the body gave (its text,
/// or why reading failed), `parsed` the body decoded as JSON if it is
/// JSON, and `error_json` the body's `error` member written as JSON: the
/// refusal quotes the error's message, or that member when it has no
/// message, or else the body itself.
pub open spec fn stream_refusal(
    content_type: Seq<char>,
    body: Result<(Seq<char>, nat), Seq<char>>,
    parsed: Option<JsonValue>,
    error_json: Seq<char>,
) -> Seq<char> {
    let ct = str_lowercase(content_type);
    match body {
        Err(e) => "expected text/event-stream but got: "@ + ct + " (body read error: "@ + e + ")"@,
        Ok((text, byte_len)) => {
            let detail = match parsed {
                Some(root) => match get_spec(root, "error"@) {
                    Some(err) => match str_member(err, "message"@) {
                        Some(m) => m,
                        None => error_json,
                    },
                    None => quoted_body(text, byte_len),
                },
                None => quoted_body(text, byte_len),
            };
            "expected text/event-stream but got: "@ + ct + " \u{2014} "@ + detail
        },
    }
}

/// Why a streaming request was refused (see [`stream_refusal`]); the body
/// text, when there is one, is decoded as JSON here.  `error_json` is the
/// body's `error` member as `serde_json` writes it.
pub fn stream_refusal_message(
    content_type: &str,
    body: Result<&str, &str>,
    error_json: &str,
) -> (r: String)
    ensures
        r@ == stream_refusal(
            content_type@,
            match body {
                Ok(t) => Ok((t@, t.spec_bytes().len())),
                Err(e) => Err(e@),
            },
            match body {
                Ok(t) => json_value_of(t@),
                Err(_) => None,
            },
            error_json@,
        ),
{
    let mut m = string_of("expected text/event-stream but got: ");
    let ct = lowercase(content_type);
    push_str(&mut m, ct.as_str());
    match body {
        Err(e) => {
            push_str(&mut m, " (body read error: ");
            push_str(&mut m, e);
            push_str(&mut m, ")");
            m
        },
        Ok(text) => {
            push_str(&mut m, " \u{2014} ");
            let decoded = decode_json(text);
            let parsed = match &decoded {
                Ok(v) => Some(v),
                Err(_) => None,
            };
            let detail = match parsed {
                Some(root) => match root.get("error") {
                    Some(err) => match crate::json::get_str(err, "message") {
                        Some(msg) => string_of(msg),
                        None => string_of(error_json),
                    },
                    None => quote_body(text),
                },
                None => quote_body(text),
            };
            push_str(&mut m, detail.as_str());
            m
        },
    }
}

} // verus!
