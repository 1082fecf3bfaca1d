//! The AI client's decisions, apart from the network: the endpoint of each
//! protocol, what each line of a streamed (server-sent events) reply means,
//! how a finished stream is reported, and the answer to a connection test.
//!
//! Two protocols are spoken: the OpenAI-compatible chat completions and
//! Anthropic's messages. The JSON of each event is read with `serde_json`.

use vstd::prelude::*;
use crate::app::AiEvent;
use crate::text::{str_eq, string_of, to_chars, trim, trim_chars, trim_string};
use crate::util::{head, head_chars};

verus! {

/// The protocol setting that selects Anthropic's messages API; any other
/// value selects the OpenAI-compatible API.
pub const PROTOCOL_ANTHROPIC: &'static str = "anthropic";
pub const OPENAI_PATH: &'static str = "/chat/completions";
pub const ANTHROPIC_PATH: &'static str = "/messages";
pub const ANTHROPIC_VERSIONED_PATH: &'static str = "/v1/messages";
/// The marker that ends an OpenAI stream.
pub const DONE_MARK: &'static str = "[DONE]";
/// The Anthropic event that carries a piece of text.
pub const DELTA_EVENT: &'static str = "content_block_delta";
/// The Anthropic event that reports an error.
pub const ERROR_EVENT: &'static str = "error";
/// Reported for an Anthropic error event without a message.
pub const UNKNOWN_ERROR: &'static str = "未知错误";
/// Reported when the user cancelled the request.
pub const CANCELLED: &'static str = "已取消";
/// How many characters of a test reply are shown.
pub const TEST_REPLY_CHARS: usize = 50;
/// How many characters of an unexpected test response are shown.
pub const TEST_ERROR_CHARS: usize = 200;

/// `s` without its trailing `/` characters (`trim_end_matches('/')`).
pub open spec fn without_trailing_slashes(s: Seq<char>) -> Seq<char>
    decreases s.len(),
{
    if s.len() > 0 && s.last() == '/' {
        without_trailing_slashes(s.drop_last())
    } else {
        s
    }
}

/// `s` ends with `/v1`.
pub open spec fn ends_with_v1(s: Seq<char>) -> bool {
    s.len() >= 3 && s.skip(s.len() - 3) == seq!['/', 'v', '1']
}

/// The endpoint for the base URL `base`: chat completions for the OpenAI
/// protocol; for Anthropic, `messages` below `/v1`, which is added when the
/// base does not end with it.
pub open spec fn chat_url_of(anthropic: bool, base: Seq<char>) -> Seq<char> {
    let b = without_trailing_slashes(base);
    if !anthropic {
        b + OPENAI_PATH@
    } else if ends_with_v1(b) {
        b + ANTHROPIC_PATH@
    } else {
        b + ANTHROPIC_VERSIONED_PATH@
    }
}

/// Whether the protocol setting selects Anthropic's API.
pub fn is_anthropic(protocol: &str) -> (r: bool)
    ensures
        r == (protocol@ == PROTOCOL_ANTHROPIC@),
{
    str_eq(protocol, PROTOCOL_ANTHROPIC)
}

/// The endpoint that requests go to, from the protocol setting and the base URL.
pub fn chat_url(protocol: &str, base_url: &str) -> (r: String)
    ensures
        r@ == chat_url_of(protocol@ == PROTOCOL_ANTHROPIC@, base_url@),
{
    let anthropic = is_anthropic(protocol);
    let cs = to_chars(base_url);
    let mut n: usize = cs.len();
    assert(cs@.take(n as int) =~= cs@);
    while n > 0 && cs[n - 1] == '/'
        invariant
            n <= cs@.len(),
            without_trailing_slashes(cs@) == without_trailing_slashes(cs@.take(n as int)),
        decreases n,
    {
        assert(cs@.take(n as int).drop_last() =~= cs@.take(n - 1));
        n = n - 1;
    }
    let mut r = string_of(&cs, 0, n);
    assert(cs@.subrange(0, n as int) =~= cs@.take(n as int));
    if !anthropic {
        r.append(OPENAI_PATH);
    } else if n >= 3 && cs[n - 3] == '/' && cs[n - 2] == 'v' && cs[n - 1] == '1' {
        assert(cs@.take(n as int).skip(n - 3) =~= seq!['/', 'v', '1']);
        r.append(ANTHROPIC_PATH);
    } else {
        proof {
            if n >= 3 {
                let b = cs@.take(n as int);
                if b.skip(n - 3) == seq!['/', 'v', '1'] {
                    assert(b.skip(n - 3)[0] == cs@[n - 3]);
                    assert(b.skip(n - 3)[1] == cs@[n - 2]);
                    assert(b.skip(n - 3)[2] == cs@[n - 1]);
                }
            }
        }
        r.append(ANTHROPIC_VERSIONED_PATH);
    }
    r
}

// ---------------------------------------------------------------------------
// Streamed replies
// ---------------------------------------------------------------------------

/// What one line of a streamed reply asks of the client.
pub enum StreamStep {
    /// Nothing: no event, or an event without text.
    Skip,
    /// The stream is over.
    Finish,
    /// A piece of the reply.
    Emit(String),
    /// The service reported an error, with its message.
    Fail(String),
}

/// The meaning of a line, in terms of character sequences.
pub enum LineEffect {
    Skip,
    Finish,
    Emit(Seq<char>),
    Fail(Seq<char>),
}

/// The view of a step.
pub open spec fn step_effect(s: StreamStep) -> LineEffect {
    match s {
        StreamStep::Skip => LineEffect::Skip,
        StreamStep::Finish => LineEffect::Finish,
        StreamStep::Emit(t) => LineEffect::Emit(t@),
        StreamStep::Fail(m) => LineEffect::Fail(m@),
    }
}

/// The prefix of an event's data line.
pub open spec fn data_prefix() -> Seq<char> {
    seq!['d', 'a', 't', 'a', ':']
}

/// The data of an event line: the trimmed line after `data:`, trimmed again.
pub open spec fn event_data(line: Seq<char>) -> Option<Seq<char>> {
    let l = trim(line);
    if l.len() >= 5 && l.take(5) == data_prefix() {
        Some(trim(l.skip(5)))
    } else {
        None
    }
}

/// The text at `choices[0].delta.content` of the JSON `data`, when `data`
/// parses and that value is a string.
pub uninterp spec fn openai_delta_of(data: Seq<char>) -> Option<Seq<char>>;

/// For the JSON `data`, when it parses: the strings at `type`, `delta.text`
/// and `error.message`, where those values are strings.
pub uninterp spec fn anthropic_fields_of(data: Seq<char>) -> Option<(Option<Seq<char>>, Option<Seq<char>>, Option<Seq<char>>)>;

/// The view of an optional string.
pub open spec fn opt_view(o: Option<String>) -> Option<Seq<char>> {
    match o {
        Some(s) => Some(s@),
        None => None,
    }
}

/// `serde_json::from_str::<serde_json::Value>`, then `choices[0].delta.content`
/// with `Value::as_str`. The result is named `openai_delta_of`.
#[verifier::external_body]
fn openai_delta(data: &str) -> (r: Option<String>)
    ensures
        opt_view(r) == openai_delta_of(data@),
{
    let v: serde_json::Value = serde_json::from_str(data).ok()?;
    v["choices"][0]["delta"]["content"].as_str().map(|s| s.to_string())
}

/// `serde_json::from_str::<serde_json::Value>`, then `type`, `delta.text` and
/// `error.message` with `Value::as_str`. The result is named `anthropic_fields_of`.
#[verifier::external_body]
fn anthropic_fields(data: &str) -> (r: Option<(Option<String>, Option<String>, Option<String>)>)
    ensures
        match r {
            Some((t, d, m)) => anthropic_fields_of(data@) == Some((opt_view(t), opt_view(d), opt_view(m))),
            None => anthropic_fields_of(data@) is None,
        },
{
    let v: serde_json::Value = serde_json::from_str(data).ok()?;
    Some((
        v["type"].as_str().map(|s| s.to_string()),
        v["delta"]["text"].as_str().map(|s| s.to_string()),
        v["error"]["message"].as_str().map(|s| s.to_string()),
    ))
}

/// What a line of an OpenAI stream means: `[DONE]` ends it; an event whose
/// `choices[0].delta.content` is a non-empty string is a piece of the reply;
/// anything else is skipped.
pub open spec fn openai_effect(line: Seq<char>) -> LineEffect {
    match event_data(line) {
        None => LineEffect::Skip,
        Some(d) => if d == DONE_MARK@ {
            LineEffect::Finish
        } else {
            match openai_delta_of(d) {
                Some(c) => if c.len() > 0 {
                    LineEffect::Emit(c)
                } else {
                    LineEffect::Skip
                },
                None => LineEffect::Skip,
            }
        },
    }
}

/// What a line of an Anthropic stream means: a `content_block_delta` event
/// with non-empty `delta.text` is a piece of the reply; an `error` event fails
/// the request with its message; anything else is skipped.
pub open spec fn anthropic_effect(line: Seq<char>) -> LineEffect {
    match event_data(line) {
        None => LineEffect::Skip,
        Some(d) => match anthropic_fields_of(d) {
            None => LineEffect::Skip,
            Some((t, text, msg)) => if t == Some(DELTA_EVENT@) {
                match text {
                    Some(x) => if x.len() > 0 {
                        LineEffect::Emit(x)
                    } else {
                        LineEffect::Skip
                    },
                    None => LineEffect::Skip,
                }
            } else if t == Some(ERROR_EVENT@) {
                LineEffect::Fail(
                    match msg {
                        Some(m) => m,
                        None => UNKNOWN_ERROR@,
                    },
                )
            } else {
                LineEffect::Skip
            },
        },
    }
}

fn line_data(line: &str) -> (r: Option<String>)
    ensures
        opt_view(r) == event_data(line@),
{
    let raw = to_chars(line);
    let l = trim_chars(&raw);
    if l.len() >= 5 && l[0] == 'd' && l[1] == 'a' && l[2] == 't' && l[3] == 'a' && l[4] == ':' {
        assert(l@.take(5) =~= data_prefix());
        let rest = string_of(&l, 5, l.len());
        assert(rest@ =~= l@.skip(5));
        Some(trim_string(rest.as_str()))
    } else {
        proof {
            if l@.len() >= 5 && l@.take(5) == data_prefix() {
                assert(l@.take(5)[0] == l@[0]);
                assert(l@.take(5)[1] == l@[1]);
                assert(l@.take(5)[2] == l@[2]);
                assert(l@.take(5)[3] == l@[3]);
                assert(l@.take(5)[4] == l@[4]);
            }
        }
        None
    }
}

/// What one line of a streamed reply means, for the protocol selected by
/// `anthropic`.
pub fn stream_step(anthropic: bool, line: &str) -> (r: StreamStep)
    ensures
        step_effect(r) == if anthropic {
            anthropic_effect(line@)
        } else {
            openai_effect(line@)
        },
{
    let data = match line_data(line) {
        Some(d) => d,
        None => return StreamStep::Skip,
    };
    if !anthropic {
        if str_eq(data.as_str(), DONE_MARK) {
            return StreamStep::Finish;
        }
        match openai_delta(data.as_str()) {
            Some(c) => if c.as_str().is_empty() {
                StreamStep::Skip
            } else {
                StreamStep::Emit(c)
            },
            None => StreamStep::Skip,
        }
    } else {
        match anthropic_fields(data.as_str()) {
            None => StreamStep::Skip,
            Some((t, text, msg)) => {
                let is_delta = match &t {
                    Some(x) => str_eq(x.as_str(), DELTA_EVENT),
                    None => false,
                };
                let is_error = match &t {
                    Some(x) => str_eq(x.as_str(), ERROR_EVENT),
                    None => false,
                };
                if is_delta {
                    match text {
                        Some(x) => if x.as_str().is_empty() {
                            StreamStep::Skip
                        } else {
                            StreamStep::Emit(x)
                        },
                        None => StreamStep::Skip,
                    }
                } else if is_error {
                    match msg {
                        Some(m) => StreamStep::Fail(m),
                        None => StreamStep::Fail(UNKNOWN_ERROR.to_owned()),
                    }
                } else {
                    StreamStep::Skip
                }
            },
        }
    }
}

/// How a finished request is reported: done when the stream ended well;
/// otherwise its error, or `已取消` when the user cancelled it.
pub fn stream_outcome(result: Result<(), String>, cancelled: bool) -> (r: AiEvent)
    ensures
        match result {
            Ok(()) => r is Done,
            Err(e) => r matches AiEvent::Error(m) && m@ == (if cancelled {
                CANCELLED@
            } else {
                e@
            }),
        },
{
    match result {
        Ok(()) => AiEvent::Done,
        Err(e) => if cancelled {
            AiEvent::Error(CANCELLED.to_owned())
        } else {
            AiEvent::Error(e)
        },
    }
}

/// The answer to a connection test: the beginning of the reply's text when
/// the response has one, else the beginning of the response itself as the error.
pub fn connection_result(reply: Option<&str>, response: &str) -> (r: Result<String, String>)
    ensures
        match reply {
            Some(t) => r matches Ok(s) && s@ == head(t@, TEST_REPLY_CHARS as nat),
            None => r matches Err(e) && e@ == head(response@, TEST_ERROR_CHARS as nat),
        },
{
    match reply {
        Some(t) => Ok(head_chars(t, TEST_REPLY_CHARS)),
        None => Err(head_chars(response, TEST_ERROR_CHARS)),
    }
}

/// For a complete OpenAI reply `body`: when it parses as JSON, the string at
/// `choices[0].message.content` (when that value is a string) and the JSON
/// printed compactly; else the parser's error text.
pub uninterp spec fn openai_reply_of(body: Seq<char>) -> Result<(Option<Seq<char>>, Seq<char>), Seq<char>>;

/// For a complete Anthropic reply `body`: when it parses as JSON, the string
/// at `content[0].text` (when that value is a string) and the JSON printed
/// compactly; else the parser's error text.
pub uninterp spec fn anthropic_reply_of(body: Seq<char>) -> Result<(Option<Seq<char>>, Seq<char>), Seq<char>>;

/// `serde_json::from_str::<serde_json::Value>` (its error by `to_string`),
/// then `choices[0].message.content` with `Value::as_str` and the value
/// printed with `to_string`. The result is named `openai_reply_of`.
#[verifier::external_body]
fn openai_reply_fields(body: &str) -> (r: Result<(Option<String>, String), String>)
    ensures
        match r {
            Ok((t, c)) => openai_reply_of(body@) == Ok::<(Option<Seq<char>>, Seq<char>), Seq<char>>((opt_view(t), c@)),
            Err(e) => openai_reply_of(body@) == Err::<(Option<Seq<char>>, Seq<char>), Seq<char>>(e@),
        },
{
    let v: serde_json::Value = serde_json::from_str(body).map_err(|e| e.to_string())?;
    Ok((v["choices"][0]["message"]["content"].as_str().map(|s| s.to_string()), v.to_string()))
}

/// `serde_json::from_str::<serde_json::Value>` (its error by `to_string`),
/// then `content[0].text` with `Value::as_str` and the value printed with
/// `to_string`. The result is named `anthropic_reply_of`.
#[verifier::external_body]
fn anthropic_reply_fields(body: &str) -> (r: Result<(Option<String>, String), String>)
    ensures
        match r {
            Ok((t, c)) => anthropic_reply_of(body@) == Ok::<(Option<Seq<char>>, Seq<char>), Seq<char>>((opt_view(t), c@)),
            Err(e) => anthropic_reply_of(body@) == Err::<(Option<Seq<char>>, Seq<char>), Seq<char>>(e@),
        },
{
    let v: serde_json::Value = serde_json::from_str(body).map_err(|e| e.to_string())?;
    Ok((v["content"][0]["text"].as_str().map(|s| s.to_string()), v.to_string()))
}

/// What a connection test reads from the reply `body` of the service, by
/// protocol (`anthropic` or OpenAI-compatible).
pub open spec fn connection_reply_of(anthropic: bool, body: Seq<char>) -> Result<(Option<Seq<char>>, Seq<char>), Seq<char>> {
    if anthropic {
        anthropic_reply_of(body)
    } else {
        openai_reply_of(body)
    }
}

/// The answer to a connection test from the whole reply `body`: the
/// beginning of the reply's text when the reply has one (see
/// [`connection_result`]), else the beginning of the reply as the error, or
/// the parser's error when the reply is no JSON.
pub fn connection_reply(anthropic: bool, body: &str) -> (r: Result<String, String>)
    ensures
        match connection_reply_of(anthropic, body@) {
            Ok((Some(t), _)) => r matches Ok(s) && s@ == head(t, TEST_REPLY_CHARS as nat),
            Ok((None, c)) => r matches Err(e) && e@ == head(c, TEST_ERROR_CHARS as nat),
            Err(p) => r matches Err(e) && e@ == p,
        },
{
    let parsed = if anthropic {
        anthropic_reply_fields(body)
    } else {
        openai_reply_fields(body)
    };
    match parsed {
        Ok((t, c)) => match t {
            Some(text) => connection_result(Some(text.as_str()), c.as_str()),
            None => connection_result(None, c.as_str()),
        },
        Err(e) => Err(e),
    }
}

} // verus!
