//! Protocol adapters: how each downstream protocol's event stream is read
//! (does an event carry content? which closing events were seen?) and
//! which events close a stream or report a failed race.
pub mod anthropic;
pub mod google;
pub mod openai;

use vstd::prelude::*;

use crate::adapters::anthropic::{
    anthropic_close_frames, anthropic_failure_frames, anthropic_failure_message,
    anthropic_inspected, AnthropicAdapter,
};
use crate::adapters::google::{
    google_close_frames, google_failure_message, google_inspected, google_stop_chunk,
    GoogleAdapter, GoogleChunk,
};
use crate::adapters::openai::{
    is_responses, openai_close_frames, openai_failure_json, openai_failure_message,
    openai_inspected, OpenAiAdapter, OpenAiChatChunk, OpenAiResponseEvent,
};
use crate::domain::types::{DownstreamRouteKind, KeyValue, ProtocolFamily};
use crate::group::race::CandidateState;
use crate::text::{
    after_prefix_trimmed, chars_of, has_prefix, lines, push_str, split_lines,
    strip_prefix_trim,
};

verus! {

/// What reading one event told about the candidate.
#[derive(Debug, Default, Clone, Copy, PartialEq, Eq, Structural)]
pub struct EventAnalysis {
    pub has_content: bool,
}

/// A `data:` payload of an event read as JSON of the shape its route
/// streams, or `Invalid` when it is not.
#[derive(Debug)]
pub enum ParsedPayload {
    Invalid,
    OpenAiChat(OpenAiChatChunk),
    OpenAiResponse(OpenAiResponseEvent),
    Google(GoogleChunk),
}

/// The views of a list of frames.
pub open spec fn frames_view(v: Seq<String>) -> Seq<Seq<char>> {
    v.map_values(|s: String| s@)
}

/// The characters encoded by `bytes` when they are valid UTF-8
/// (`std::str::from_utf8`). Claimed: `Some` exactly for valid UTF-8, holding
/// the decoded characters.
#[verifier::external_body]
pub(crate) fn utf8_chars(bytes: &[u8]) -> (r: Option<Vec<char>>)
    ensures
        match r {
            Some(v) => vstd::utf8::valid_utf8(bytes@) && v@ == vstd::utf8::decode_utf8(bytes@),
            None => !vstd::utf8::valid_utf8(bytes@),
        },
{
    match std::str::from_utf8(bytes) {
        Ok(s) => Some(s.chars().collect()),
        Err(_) => None,
    }
}

/// The hexadecimal digit for `d < 16`, lower case.
pub open spec fn hex_digit(d: nat) -> char {
    if d < 10 {
        crate::text::digit_char(d)
    } else if d == 10 {
        'a'
    } else if d == 11 {
        'b'
    } else if d == 12 {
        'c'
    } else if d == 13 {
        'd'
    } else if d == 14 {
        'e'
    } else {
        'f'
    }
}

/// How `serde_json` writes a character inside a string literal: quote and
/// backslash escaped, the control characters with a short escape where
/// JSON has one and as `\u00XX` otherwise, every other character as is.
pub open spec fn escaped_char(c: char) -> Seq<char> {
    let u = c as u32;
    if c == '"' {
        seq!['\\', '"']
    } else if c == '\\' {
        seq!['\\', '\\']
    } else if u == 0x08 {
        seq!['\\', 'b']
    } else if u == 0x09 {
        seq!['\\', 't']
    } else if u == 0x0A {
        seq!['\\', 'n']
    } else if u == 0x0C {
        seq!['\\', 'f']
    } else if u == 0x0D {
        seq!['\\', 'r']
    } else if u < 0x20 {
        seq!['\\', 'u', '0', '0', hex_digit((u / 16) as nat), hex_digit((u % 16) as nat)]
    } else {
        seq![c]
    }
}

/// The characters of `s`, each written as in a JSON string literal.
pub open spec fn escaped(s: Seq<char>) -> Seq<char>
    decreases s.len(),
{
    if s.len() == 0 {
        seq![]
    } else {
        escaped(s.drop_last()) + escaped_char(s.last())
    }
}

/// The JSON string literal that `serde_json` writes for `s`: quoted, with
/// quotes, backslashes and control characters escaped.
pub open spec fn json_string(s: Seq<char>) -> Seq<char> {
    seq!['"'] + escaped(s) + seq!['"']
}

/// `serde_json::to_string` of a string. Claimed, as `serde_json`'s source
/// shows: the result is `json_string(s)`; serializing a string cannot fail.
#[verifier::external_body]
pub(crate) fn json_quote(s: &str) -> (r: String)
    ensures
        r@ == json_string(s@),
{
    match serde_json::to_string(s) {
        Ok(v) => v,
        Err(_) => String::new(),
    }
}

/// The `data:` payloads of a list of lines, in order, each trimmed.
pub open spec fn data_payloads_of(ls: Seq<Seq<char>>) -> Seq<Seq<char>>
    decreases ls.len(),
{
    if ls.len() == 0 {
        seq![]
    } else {
        let rest = data_payloads_of(ls.drop_last());
        if has_prefix(ls.last(), "data:"@) {
            rest.push(after_prefix_trimmed(ls.last(), "data:"@))
        } else {
            rest
        }
    }
}

/// The `data:` payloads of an SSE event text.
pub open spec fn data_payloads(ev: Seq<char>) -> Seq<Seq<char>> {
    data_payloads_of(lines(ev))
}

/// The `data:` payloads of an SSE event text, each trimmed, in order.
pub fn sse_data_payloads(ev: &Vec<char>) -> (r: Vec<String>)
    ensures
        r@.map_values(|s: String| s@) == data_payloads(ev@),
{
    let ls = split_lines(ev);
    let ghost lv = ls@.map_values(|l: Vec<char>| l@);
    let prefix = chars_of("data:");
    let mut out: Vec<String> = Vec::new();
    let mut i: usize = 0;
    while i < ls.len()
        invariant
            i <= ls.len(),
            lv == ls@.map_values(|l: Vec<char>| l@),
            lv == lines(ev@),
            prefix@ == "data:"@,
            out@.map_values(|s: String| s@) == data_payloads_of(lv.subrange(0, i as int)),
        decreases ls.len() - i,
    {
        assert(lv.subrange(0, i + 1).drop_last() =~= lv.subrange(0, i as int));
        assert(lv[i as int] == ls@[i as int]@);
        let ghost before = out@;
        match strip_prefix_trim(&ls[i], &prefix) {
            Some(p) => {
                out.push(p);
                assert(out@.map_values(|s: String| s@) =~= before.map_values(|s: String| s@).push(
                    after_prefix_trimmed(lv[i as int], "data:"@),
                ));
            },
            None => {},
        }
        i += 1;
    }
    assert(lv.subrange(0, ls.len() as int) =~= lv);
    out
}

/// The `data:` payloads of an event, each trimmed, in order; `None` when
/// the event is not UTF-8.
pub fn event_payload_texts(event: &[u8]) -> (r: Option<Vec<String>>)
    ensures
        match r {
            Some(v) => vstd::utf8::valid_utf8(event@) && v@.map_values(|s: String| s@)
                == data_payloads(vstd::utf8::decode_utf8(event@)),
            None => !vstd::utf8::valid_utf8(event@),
        },
{
    match utf8_chars(event) {
        Some(ev) => Some(sse_data_payloads(&ev)),
        None => None,
    }
}

/// `"name: reason"` for each entry, joined by `"; "`.
pub open spec fn join_errors(es: Seq<(Seq<char>, Seq<char>)>) -> Seq<char>
    decreases es.len(),
{
    if es.len() == 0 {
        seq![]
    } else if es.len() == 1 {
        es[0].0 + ": "@ + es[0].1
    } else {
        join_errors(es.drop_last()) + "; "@ + es.last().0 + ": "@ + es.last().1
    }
}

/// The views of a list of key-value entries.
pub open spec fn kv_view(v: Seq<KeyValue>) -> Seq<(Seq<char>, Seq<char>)> {
    v.map_values(|e: KeyValue| (e.key@, e.value@))
}

/// Appends `"name: reason"` for each error, separated by `"; "`.
pub fn push_joined_errors(out: &mut String, errors: &Vec<KeyValue>)
    ensures
        final(out)@ == old(out)@ + join_errors(kv_view(errors@)),
{
    let ghost start = out@;
    let ghost ev = kv_view(errors@);
    let mut i: usize = 0;
    while i < errors.len()
        invariant
            i <= errors.len(),
            ev == kv_view(errors@),
            out@ == start + join_errors(ev.subrange(0, i as int)),
        decreases errors.len() - i,
    {
        let ghost prev = out@;
        if i > 0 {
            push_str(out, "; ");
        }
        push_str(out, errors[i].key.as_str());
        push_str(out, ": ");
        push_str(out, errors[i].value.as_str());
        proof {
            let sub = ev.subrange(0, i + 1);
            assert(sub.drop_last() =~= ev.subrange(0, i as int));
            assert(sub.last() == (errors@[i as int].key@, errors@[i as int].value@));
            if i == 0 {
                assert(sub.len() == 1);
            }
            assert(out@ =~= start + join_errors(sub));
        }
        i += 1;
    }
    assert(ev.subrange(0, errors.len() as int) =~= ev);
}

/// An SSE frame with only a data line: `data: <data>` and a blank line.
pub open spec fn sse_data_frame(data: Seq<char>) -> Seq<char> {
    "data: "@ + data + "\n\n"@
}

/// An SSE frame with an event name: `event: <name>`, `data: <data>`, and a
/// blank line.
pub open spec fn sse_event_frame(name: Seq<char>, data: Seq<char>) -> Seq<char> {
    "event: "@ + name + "\n"@ + "data: "@ + data + "\n\n"@
}

/// `data: <data>` followed by a blank line.
pub fn sse_data(data: &str) -> (r: String)
    ensures
        r@ == sse_data_frame(data@),
{
    let mut out = String::new();
    push_str(&mut out, "data: ");
    push_str(&mut out, data);
    push_str(&mut out, "\n\n");
    assert(out@ =~= sse_data_frame(data@));
    out
}

/// `event: <name>`, `data: <data>`, then a blank line.
pub fn sse_event(name: &str, data: &str) -> (r: String)
    ensures
        r@ == sse_event_frame(name@, data@),
{
    let mut out = String::new();
    push_str(&mut out, "event: ");
    push_str(&mut out, name);
    push_str(&mut out, "\n");
    push_str(&mut out, "data: ");
    push_str(&mut out, data);
    push_str(&mut out, "\n\n");
    assert(out@ =~= sse_event_frame(name@, data@));
    out
}

/// The content type of every race response.
pub fn response_content_type() -> (r: &'static str)
    ensures
        r@ == "text/event-stream"@,
{
    "text/event-stream"
}

/// The adapter of one downstream route.
#[derive(Debug, Clone, Copy)]
pub enum RaceProtocolAdapter {
    OpenAi(OpenAiAdapter),
    Anthropic(AnthropicAdapter),
    Google(GoogleAdapter),
}

/// The adapter that serves `route_kind`: OpenAI for both OpenAI routes,
/// Anthropic for Messages, Google for both Google routes.
pub fn adapter_for_route(route_kind: DownstreamRouteKind) -> (r: RaceProtocolAdapter)
    ensures
        r.route() == route_kind,
        match route_kind {
            DownstreamRouteKind::OpenAiChatCompletions | DownstreamRouteKind::OpenAiResponses =>
                r is OpenAi,
            DownstreamRouteKind::AnthropicMessages => r is Anthropic,
            _ => r is Google,
        },
{
    match route_kind {
        DownstreamRouteKind::OpenAiChatCompletions | DownstreamRouteKind::OpenAiResponses => {
            RaceProtocolAdapter::OpenAi(OpenAiAdapter::new(route_kind))
        },
        DownstreamRouteKind::AnthropicMessages => RaceProtocolAdapter::Anthropic(AnthropicAdapter),
        DownstreamRouteKind::GoogleV1BetaModels | DownstreamRouteKind::GoogleV1Models => {
            RaceProtocolAdapter::Google(GoogleAdapter::new(route_kind))
        },
    }
}

impl RaceProtocolAdapter {
    /// The route this adapter serves.
    pub open spec fn route(&self) -> DownstreamRouteKind {
        match *self {
            RaceProtocolAdapter::OpenAi(a) => a.route(),
            RaceProtocolAdapter::Anthropic(_) => DownstreamRouteKind::AnthropicMessages,
            RaceProtocolAdapter::Google(a) => a.route(),
        }
    }

    /// The protocol family this adapter reads.
    pub fn protocol_family(&self) -> (r: ProtocolFamily)
        ensures
            r == match *self {
                RaceProtocolAdapter::OpenAi(_) => ProtocolFamily::OpenAi,
                RaceProtocolAdapter::Anthropic(_) => ProtocolFamily::Anthropic,
                RaceProtocolAdapter::Google(_) => ProtocolFamily::Google,
            },
    {
        match self {
            RaceProtocolAdapter::OpenAi(a) => a.protocol_family(),
            RaceProtocolAdapter::Anthropic(a) => a.protocol_family(),
            RaceProtocolAdapter::Google(a) => a.protocol_family(),
        }
    }

    /// The downstream route this adapter serves.
    pub fn route_kind(&self) -> (r: DownstreamRouteKind)
        ensures
            r == self.route(),
    {
        match self {
            RaceProtocolAdapter::OpenAi(a) => a.route_kind(),
            RaceProtocolAdapter::Anthropic(a) => a.route_kind(),
            RaceProtocolAdapter::Google(a) => a.route_kind(),
        }
    }

    /// The label of the protocol in metrics.
    pub fn protocol_label(&self) -> (r: &'static str)
        ensures
            r@ == match *self {
                RaceProtocolAdapter::OpenAi(a) => if is_responses(a.route()) {
                    "openai_responses"@
                } else {
                    "openai"@
                },
                RaceProtocolAdapter::Anthropic(_) => "anthropic"@,
                RaceProtocolAdapter::Google(_) => "google"@,
            },
    {
        match self {
            RaceProtocolAdapter::OpenAi(a) => a.protocol_label(),
            RaceProtocolAdapter::Anthropic(a) => a.protocol_label(),
            RaceProtocolAdapter::Google(a) => a.protocol_label(),
        }
    }

    /// The content type of the race response.
    pub fn response_content_type(&self) -> (r: &'static str)
        ensures
            r@ == "text/event-stream"@,
    {
        response_content_type()
    }

    /// Reads one event of a candidate's stream (see each adapter);
    /// `parsed` holds the parsed `data:` payloads where the protocol reads
    /// JSON.
    pub fn inspect_event(
        &self,
        state: &mut CandidateState,
        event: &[u8],
        parsed: &Vec<ParsedPayload>,
    ) -> (r: EventAnalysis)
        ensures
            match *self {
                RaceProtocolAdapter::OpenAi(a) => openai_inspected(
                    a.route(),
                    *old(state),
                    *final(state),
                    event@,
                    parsed@,
                    r,
                ),
                RaceProtocolAdapter::Anthropic(_) => anthropic_inspected(
                    *old(state),
                    *final(state),
                    event@,
                    r,
                ),
                RaceProtocolAdapter::Google(_) => google_inspected(
                    *old(state),
                    *final(state),
                    event@,
                    parsed@,
                    r,
                ),
            },
    {
        match self {
            RaceProtocolAdapter::OpenAi(a) => a.inspect_event(state, event, parsed),
            RaceProtocolAdapter::Anthropic(a) => a.inspect_event(state, event),
            RaceProtocolAdapter::Google(a) => a.inspect_event(state, event, parsed),
        }
    }

    /// The events that report a failed race to the client.
    pub fn all_failed_events(&self, group_name: &str, errors: &Vec<KeyValue>) -> (r: Vec<String>)
        ensures
            frames_view(r@) == match *self {
                RaceProtocolAdapter::OpenAi(a) => seq![
                    sse_data_frame(
                        openai_failure_json(
                            is_responses(a.route()),
                            openai_failure_message(group_name@, kv_view(errors@)),
                        ),
                    ),
                    sse_data_frame("[DONE]"@),
                ],
                RaceProtocolAdapter::Anthropic(_) => anthropic_failure_frames(
                    anthropic_failure_message(group_name@, kv_view(errors@)),
                ),
                RaceProtocolAdapter::Google(_) => seq![
                    sse_data_frame(
                        google_stop_chunk(
                            "{\"text\":"@ + json_string(
                                google_failure_message(group_name@, kv_view(errors@)),
                            ) + "}"@,
                        ),
                    ),
                ],
            },
    {
        match self {
            RaceProtocolAdapter::OpenAi(a) => a.all_failed_events(group_name, errors),
            RaceProtocolAdapter::Anthropic(a) => a.all_failed_events(group_name, errors),
            RaceProtocolAdapter::Google(a) => a.all_failed_events(group_name, errors),
        }
    }

    /// The events that close a candidate's stream when it broke off.
    pub fn fallback_close_events(&self, group_name: &str, state: &CandidateState) -> (r: Vec<
        String,
    >)
        ensures
            frames_view(r@) == match *self {
                RaceProtocolAdapter::OpenAi(a) => openai_close_frames(
                    is_responses(a.route()),
                    state.protocol_flags,
                ),
                RaceProtocolAdapter::Anthropic(_) => anthropic_close_frames(
                    state.protocol_flags,
                    state.protocol_open_blocks@,
                ),
                RaceProtocolAdapter::Google(_) => google_close_frames(state.protocol_flags),
            },
    {
        match self {
            RaceProtocolAdapter::OpenAi(a) => a.fallback_close_events(group_name, state),
            RaceProtocolAdapter::Anthropic(a) => a.fallback_close_events(group_name, state),
            RaceProtocolAdapter::Google(a) => a.fallback_close_events(group_name, state),
        }
    }
}

} // verus!
