//! OpenAI streams: Chat Completions chunks and Responses events, each
//! carried in `data:` lines and ended by `data: [DONE]`.
use vstd::prelude::*;

use crate::adapters::{
    data_payloads, event_payload_texts, frames_view, json_quote, json_string, join_errors,
    kv_view, push_joined_errors, sse_data, sse_data_frame, utf8_chars, EventAnalysis,
    ParsedPayload,
};
use crate::domain::types::{DownstreamRouteKind, KeyValue, ProtocolFamily};
use crate::group::race::{CandidateState, ProtocolFlags};
use crate::text::{push_str, str_eq};

verus! {

/// The function fields of a tool call or of a legacy function call.
#[derive(Debug)]
pub struct OpenAiFunctionFields {
    pub name: Option<String>,
    pub arguments: Option<String>,
}

/// One tool call of a chat delta.
#[derive(Debug)]
pub struct OpenAiToolCall {
    pub function: Option<OpenAiFunctionFields>,
}

/// The delta of one choice of a chat chunk.
#[derive(Debug)]
pub struct OpenAiDelta {
    pub content: Option<String>,
    pub reasoning_content: Option<String>,
    pub tool_calls: Option<Vec<OpenAiToolCall>>,
    pub function_call: Option<OpenAiFunctionFields>,
}

/// One choice of a chat chunk.
#[derive(Debug)]
pub struct OpenAiChoice {
    pub delta: Option<OpenAiDelta>,
    pub finish_reason: Option<String>,
}

/// A Chat Completions stream chunk, as far as the race reads it.
#[derive(Debug)]
pub struct OpenAiChatChunk {
    pub choices: Vec<OpenAiChoice>,
}

/// A Responses stream event, as far as the race reads it: its `type`.
#[derive(Debug)]
pub struct OpenAiResponseEvent {
    pub kind: Option<String>,
}

/// Reads and closes OpenAI streams of one route.
#[derive(Debug, Clone, Copy)]
pub struct OpenAiAdapter {
    route_kind: DownstreamRouteKind,
}

/// The text is present and not empty.
pub open spec fn nonempty(t: Option<String>) -> bool {
    t matches Some(s) && s@.len() > 0
}

/// A function name or its arguments are present and not empty.
pub open spec fn function_has_content(f: OpenAiFunctionFields) -> bool {
    nonempty(f.name) || nonempty(f.arguments)
}

/// The tool call carries a function name or arguments.
pub open spec fn call_has_content(c: OpenAiToolCall) -> bool {
    c.function matches Some(f) && function_has_content(f)
}

/// Some tool call carries a function name or arguments.
pub open spec fn tool_calls_have_content(calls: Seq<OpenAiToolCall>) -> bool {
    exists|j: int| 0 <= j < calls.len() && call_has_content(#[trigger] calls[j])
}

/// A chat delta carries content: text, reasoning text, or a tool or
/// function call with a name or arguments.
pub open spec fn delta_has_content(d: OpenAiDelta) -> bool {
    ||| nonempty(d.content)
    ||| nonempty(d.reasoning_content)
    ||| (d.tool_calls matches Some(calls) && tool_calls_have_content(calls@))
    ||| (d.function_call matches Some(f) && function_has_content(f))
}

/// The choice has a delta that carries content.
pub open spec fn choice_has_content(c: OpenAiChoice) -> bool {
    c.delta matches Some(d) && delta_has_content(d)
}

/// Some choice of the chunk has a delta that carries content.
pub open spec fn chat_has_content(c: OpenAiChatChunk) -> bool {
    exists|j: int| 0 <= j < c.choices.len() && choice_has_content(#[trigger] c.choices@[j])
}

/// Some choice of the chunk has a finish reason.
pub open spec fn chat_finishes(c: OpenAiChatChunk) -> bool {
    exists|j: int| 0 <= j < c.choices.len() && (#[trigger] c.choices@[j]).finish_reason.is_some()
}

/// Responses event types that stream content.
pub open spec fn response_content_kind(k: Seq<char>) -> bool {
    ||| k == "response.output_text.delta"@
    ||| k == "response.reasoning.delta"@
    ||| k == "response.function_call_arguments.delta"@
    ||| k == "response.output_item.added"@
}

/// Responses event types that finish the output.
pub open spec fn response_finish_kind(k: Seq<char>) -> bool {
    ||| k == "response.completed"@
    ||| k == "response.failed"@
    ||| k == "response.output_item.done"@
    ||| k == "response.content_part.done"@
    ||| k == "response.output_text.done"@
}

/// The event type is present and streams content.
pub open spec fn kind_streams_content(k: Option<String>) -> bool {
    k matches Some(s) && response_content_kind(s@)
}

/// The event type is present and finishes the output.
pub open spec fn kind_finishes(k: Option<String>) -> bool {
    k matches Some(s) && response_finish_kind(s@)
}

/// The parsed form of payload `i`; missing entries count as unparsable.
pub open spec fn parsed_at(parsed: Seq<ParsedPayload>, i: int) -> ParsedPayload {
    if 0 <= i < parsed.len() {
        parsed[i]
    } else {
        ParsedPayload::Invalid
    }
}

/// The payload carries content on the Responses route (`responses`) or on
/// the Chat Completions route.
pub open spec fn openai_payload_content(responses: bool, p: ParsedPayload) -> bool {
    match p {
        ParsedPayload::OpenAiResponse(e) => responses && kind_streams_content(e.kind),
        ParsedPayload::OpenAiChat(c) => !responses && chat_has_content(c),
        _ => false,
    }
}

/// The payload finishes the output on the given route.
pub open spec fn openai_payload_finishes(responses: bool, p: ParsedPayload) -> bool {
    match p {
        ParsedPayload::OpenAiResponse(e) => responses && kind_finishes(e.kind),
        ParsedPayload::OpenAiChat(c) => !responses && chat_finishes(c),
        _ => false,
    }
}

/// Payload `i` is the `[DONE]` marker.
pub open spec fn done_at(ps: Seq<Seq<char>>, i: int) -> bool {
    0 <= i < ps.len() && ps[i] == "[DONE]"@
}

/// Payload `i` is not the marker and carries content.
pub open spec fn content_at(
    responses: bool,
    ps: Seq<Seq<char>>,
    parsed: Seq<ParsedPayload>,
    i: int,
) -> bool {
    0 <= i < ps.len() && ps[i] != "[DONE]"@ && openai_payload_content(
        responses,
        parsed_at(parsed, i),
    )
}

/// Payload `i` is not the marker and finishes the output.
pub open spec fn finish_at(
    responses: bool,
    ps: Seq<Seq<char>>,
    parsed: Seq<ParsedPayload>,
    i: int,
) -> bool {
    0 <= i < ps.len() && ps[i] != "[DONE]"@ && openai_payload_finishes(
        responses,
        parsed_at(parsed, i),
    )
}

/// The closing flags after the payloads `ps`.
pub open spec fn openai_flags(
    f: ProtocolFlags,
    responses: bool,
    ps: Seq<Seq<char>>,
    parsed: Seq<ParsedPayload>,
) -> ProtocolFlags {
    ProtocolFlags {
        emitted_done: f.emitted_done || exists|i: int| #[trigger] done_at(ps, i),
        emitted_finish: f.emitted_finish || exists|i: int|
            #[trigger] finish_at(responses, ps, parsed, i),
        ..f
    }
}

fn opt_nonempty(t: &Option<String>) -> (r: bool)
    ensures
        r == nonempty(*t),
{
    match t {
        Some(s) => s.as_str().unicode_len() > 0,
        None => false,
    }
}

fn function_fields_have_content(f: &OpenAiFunctionFields) -> (r: bool)
    ensures
        r == function_has_content(*f),
{
    opt_nonempty(&f.name) || opt_nonempty(&f.arguments)
}

fn tool_calls_content(calls: &Vec<OpenAiToolCall>) -> (r: bool)
    ensures
        r == tool_calls_have_content(calls@),
{
    let mut j: usize = 0;
    while j < calls.len()
        invariant
            j <= calls.len(),
            forall|k: int| 0 <= k < j ==> !call_has_content(#[trigger] calls@[k]),
        decreases calls.len() - j,
    {
        match &calls[j].function {
            Some(f) => {
                if function_fields_have_content(f) {
                    assert(call_has_content(calls@[j as int]));
                    return true;
                }
            },
            None => {},
        }
        j += 1;
    }
    false
}

/// Whether a chat delta carries content: non-empty text or reasoning text,
/// or a tool or function call with a non-empty name or arguments.
pub fn has_openai_delta_content(delta: &OpenAiDelta) -> (r: bool)
    ensures
        r == delta_has_content(*delta),
{
    if opt_nonempty(&delta.content) || opt_nonempty(&delta.reasoning_content) {
        return true;
    }
    match &delta.tool_calls {
        Some(calls) => {
            if tool_calls_content(calls) {
                return true;
            }
        },
        None => {},
    }
    match &delta.function_call {
        Some(f) => function_fields_have_content(f),
        None => false,
    }
}

fn chunk_has_content(c: &OpenAiChatChunk) -> (r: bool)
    ensures
        r == chat_has_content(*c),
{
    let mut j: usize = 0;
    while j < c.choices.len()
        invariant
            j <= c.choices.len(),
            forall|k: int| 0 <= k < j ==> !choice_has_content(#[trigger] c.choices@[k]),
        decreases c.choices.len() - j,
    {
        match &c.choices[j].delta {
            Some(d) => {
                if has_openai_delta_content(d) {
                    assert(choice_has_content(c.choices@[j as int]));
                    return true;
                }
            },
            None => {},
        }
        j += 1;
    }
    false
}

fn chunk_finishes(c: &OpenAiChatChunk) -> (r: bool)
    ensures
        r == chat_finishes(*c),
{
    let mut j: usize = 0;
    while j < c.choices.len()
        invariant
            j <= c.choices.len(),
            forall|k: int| 0 <= k < j ==> (#[trigger] c.choices@[k]).finish_reason.is_none(),
        decreases c.choices.len() - j,
    {
        if c.choices[j].finish_reason.is_some() {
            return true;
        }
        j += 1;
    }
    false
}

fn kind_is_content(k: &str) -> (r: bool)
    ensures
        r == response_content_kind(k@),
{
    str_eq(k, "response.output_text.delta") || str_eq(k, "response.reasoning.delta") || str_eq(
        k,
        "response.function_call_arguments.delta",
    ) || str_eq(k, "response.output_item.added")
}

fn kind_is_finish(k: &str) -> (r: bool)
    ensures
        r == response_finish_kind(k@),
{
    str_eq(k, "response.completed") || str_eq(k, "response.failed") || str_eq(
        k,
        "response.output_item.done",
    ) || str_eq(k, "response.content_part.done") || str_eq(k, "response.output_text.done")
}

fn payload_content(responses: bool, p: &ParsedPayload) -> (r: bool)
    ensures
        r == openai_payload_content(responses, *p),
{
    match p {
        ParsedPayload::OpenAiResponse(e) => responses && match &e.kind {
            Some(k) => kind_is_content(k.as_str()),
            None => false,
        },
        ParsedPayload::OpenAiChat(c) => !responses && chunk_has_content(c),
        _ => false,
    }
}

fn payload_finishes(responses: bool, p: &ParsedPayload) -> (r: bool)
    ensures
        r == openai_payload_finishes(responses, *p),
{
    match p {
        ParsedPayload::OpenAiResponse(e) => responses && match &e.kind {
            Some(k) => kind_is_finish(k.as_str()),
            None => false,
        },
        ParsedPayload::OpenAiChat(c) => !responses && chunk_finishes(c),
        _ => false,
    }
}

/// The Responses route, whose events are typed; every other route reads
/// Chat Completions chunks.
pub open spec fn is_responses(route: DownstreamRouteKind) -> bool {
    route == DownstreamRouteKind::OpenAiResponses
}

/// The message that reports a failed race to an OpenAI client.
pub open spec fn openai_failure_message(group: Seq<char>, errors: Seq<(Seq<char>, Seq<char>)>) -> Seq<char> {
    "All candidates failed in model group '"@ + group + "': "@ + join_errors(errors)
}

/// The error object that reports a failed race (keys in JSON order of
/// `serde_json`'s map: sorted).
pub open spec fn openai_failure_json(responses: bool, message: Seq<char>) -> Seq<char> {
    if responses {
        "{\"error\":{\"code\":\"all_candidates_failed\",\"message\":"@ + json_string(message)
            + ",\"type\":\"model_group_race_error\"},\"type\":\"error\"}"@
    } else {
        "{\"error\":{\"code\":\"all_candidates_failed\",\"message\":"@ + json_string(message)
            + ",\"param\":\"model\",\"type\":\"model_group_race_error\"}}"@
    }
}

/// The chunk that finishes a chat stream.
pub open spec fn chat_stop_json() -> Seq<char> {
    "{\"choices\":[{\"delta\":{},\"finish_reason\":\"stop\",\"index\":0}]}"@
}

/// The event that completes a Responses stream.
pub open spec fn response_completed_json() -> Seq<char> {
    "{\"type\":\"response.completed\"}"@
}

/// The frames that close a stream that broke off: a finishing chunk or
/// event unless one was seen, then `[DONE]` unless it was seen.
pub open spec fn openai_close_frames(responses: bool, flags: ProtocolFlags) -> Seq<Seq<char>> {
    (if !flags.emitted_finish {
        seq![
            sse_data_frame(
                if responses {
                    response_completed_json()
                } else {
                    chat_stop_json()
                },
            ),
        ]
    } else {
        seq![]
    }) + (if !flags.emitted_done {
        seq![sse_data_frame("[DONE]"@)]
    } else {
        seq![]
    })
}

/// What reading `event` does on `route`: nothing for a non-UTF-8 event;
/// else the result tells whether a payload carries content and only the
/// closing flags change.
pub open spec fn openai_inspected(
    route: DownstreamRouteKind,
    before: CandidateState,
    after: CandidateState,
    event: Seq<u8>,
    parsed: Seq<ParsedPayload>,
    r: EventAnalysis,
) -> bool {
    if !vstd::utf8::valid_utf8(event) {
        !r.has_content && after == before
    } else {
        let ps = data_payloads(vstd::utf8::decode_utf8(event));
        let responses = is_responses(route);
        &&& r.has_content == exists|i: int| #[trigger] content_at(responses, ps, parsed, i)
        &&& after == (CandidateState {
            protocol_flags: openai_flags(before.protocol_flags, responses, ps, parsed),
            ..before
        })
    }
}

impl OpenAiAdapter {
    /// The route the adapter serves.
    pub closed spec fn route(&self) -> DownstreamRouteKind {
        self.route_kind
    }

    /// An adapter for the given OpenAI route.
    pub fn new(route_kind: DownstreamRouteKind) -> (r: Self)
        ensures
            r.route() == route_kind,
    {
        OpenAiAdapter { route_kind }
    }

    /// The protocol family this adapter reads.
    pub fn protocol_family(&self) -> (r: ProtocolFamily)
        ensures
            r == ProtocolFamily::OpenAi,
    {
        ProtocolFamily::OpenAi
    }

    /// The downstream route this adapter serves.
    pub fn route_kind(&self) -> (r: DownstreamRouteKind)
        ensures
            r == self.route(),
    {
        self.route_kind
    }

    /// The label of the protocol in metrics.
    pub fn protocol_label(&self) -> (r: &'static str)
        ensures
            is_responses(self.route()) ==> r@ == "openai_responses"@,
            !is_responses(self.route()) ==> r@ == "openai"@,
    {
        match self.route_kind {
            DownstreamRouteKind::OpenAiResponses => "openai_responses",
            _ => "openai",
        }
    }

    /// Reads one event of a candidate's stream. `parsed[i]` is the parse of
    /// the event's `i`-th `data:` payload (`ParsedPayload::Invalid` where it
    /// is not JSON of this route's shape). A `[DONE]` payload marks the end
    /// of the stream; a chunk or event with content marks the event as
    /// content; a finishing one records that the output was finished. A
    /// non-UTF-8 event changes nothing and carries no content.
    pub fn inspect_event(
        &self,
        state: &mut CandidateState,
        event: &[u8],
        parsed: &Vec<ParsedPayload>,
    ) -> (r: EventAnalysis)
        ensures
            openai_inspected(self.route(), *old(state), *final(state), event@, parsed@, r),
    {
        let ps = match event_payload_texts(event) {
            Some(p) => p,
            None => return EventAnalysis { has_content: false },
        };
        let ghost psv = ps@.map_values(|s: String| s@);
        let responses = match self.route_kind {
            DownstreamRouteKind::OpenAiResponses => true,
            _ => false,
        };
        let ghost f0 = state.protocol_flags;
        let mut has_content = false;
        let mut done = false;
        let mut finish = false;
        let mut i: usize = 0;
        while i < ps.len()
            invariant
                i <= ps.len(),
                psv == ps@.map_values(|s: String| s@),
                has_content == exists|k: int| 0 <= k < i && #[trigger] content_at(
                    responses,
                    psv,
                    parsed@,
                    k,
                ),
                done == exists|k: int| 0 <= k < i && #[trigger] done_at(psv, k),
                finish == exists|k: int| 0 <= k < i && #[trigger] finish_at(
                    responses,
                    psv,
                    parsed@,
                    k,
                ),
            decreases ps.len() - i,
        {
            assert(psv[i as int] == ps@[i as int]@);
            proof {
                reveal_strlit("[DONE]");
            }
            if str_eq(ps[i].as_str(), "[DONE]") {
                done = true;
                assert(done_at(psv, i as int));
                assert(!content_at(responses, psv, parsed@, i as int));
                assert(!finish_at(responses, psv, parsed@, i as int));
            } else {
                assert(!done_at(psv, i as int));
                if i < parsed.len() {
                    let c = payload_content(responses, &parsed[i]);
                    let f = payload_finishes(responses, &parsed[i]);
                    assert(c == content_at(responses, psv, parsed@, i as int));
                    assert(f == finish_at(responses, psv, parsed@, i as int));
                    has_content = has_content || c;
                    finish = finish || f;
                } else {
                    assert(!content_at(responses, psv, parsed@, i as int));
                    assert(!finish_at(responses, psv, parsed@, i as int));
                }
            }
            i += 1;
        }
        if done {
            state.protocol_flags.emitted_done = true;
        }
        if finish {
            state.protocol_flags.emitted_finish = true;
        }
        proof {
            assert(forall|k: int| #[trigger] content_at(responses, psv, parsed@, k) ==> 0 <= k < i);
            assert(forall|k: int| #[trigger] done_at(psv, k) ==> 0 <= k < i);
            assert(forall|k: int| #[trigger] finish_at(responses, psv, parsed@, k) ==> 0 <= k < i);
        }
        EventAnalysis { has_content }
    }

    /// The events that close a candidate's stream when it broke off.
    pub fn fallback_close_events(&self, group_name: &str, state: &CandidateState) -> (r: Vec<String>)
        ensures
            frames_view(r@) == openai_close_frames(is_responses(self.route()), state.protocol_flags),
    {
        let mut out: Vec<String> = Vec::new();
        if !state.protocol_flags.emitted_finish {
            match self.route_kind {
                DownstreamRouteKind::OpenAiResponses => {
                    out.push(sse_data("{\"type\":\"response.completed\"}"));
                },
                _ => {
                    out.push(
                        sse_data("{\"choices\":[{\"delta\":{},\"finish_reason\":\"stop\",\"index\":0}]}"),
                    );
                },
            }
        }
        if !state.protocol_flags.emitted_done {
            out.push(sse_data("[DONE]"));
        }
        assert(frames_view(out@) =~= openai_close_frames(
            is_responses(self.route()),
            state.protocol_flags,
        ));
        out
    }

    /// The events that report a failed race: an error object naming each
    /// candidate's failure, then `[DONE]`.
    pub fn all_failed_events(&self, group_name: &str, errors: &Vec<KeyValue>) -> (r: Vec<String>)
        ensures
            frames_view(r@) == seq![
                sse_data_frame(
                    openai_failure_json(
                        is_responses(self.route()),
                        openai_failure_message(group_name@, kv_view(errors@)),
                    ),
                ),
                sse_data_frame("[DONE]"@),
            ],
    {
        let mut message = String::new();
        push_str(&mut message, "All candidates failed in model group '");
        push_str(&mut message, group_name);
        push_str(&mut message, "': ");
        push_joined_errors(&mut message, errors);
        let quoted = json_quote(message.as_str());
        let mut body = String::new();
        push_str(&mut body, "{\"error\":{\"code\":\"all_candidates_failed\",\"message\":");
        push_str(&mut body, quoted.as_str());
        match self.route_kind {
            DownstreamRouteKind::OpenAiResponses => {
                push_str(&mut body, ",\"type\":\"model_group_race_error\"},\"type\":\"error\"}");
            },
            _ => {
                push_str(&mut body, ",\"param\":\"model\",\"type\":\"model_group_race_error\"}}");
            },
        }
        assert(message@ =~= openai_failure_message(group_name@, kv_view(errors@)));
        assert(body@ =~= openai_failure_json(is_responses(self.route()), message@));
        let mut out: Vec<String> = Vec::new();
        out.push(sse_data(body.as_str()));
        out.push(sse_data("[DONE]"));
        assert(frames_view(out@) =~= seq![
            sse_data_frame(body@),
            sse_data_frame("[DONE]"@),
        ]);
        out
    }
}


/// On the Responses route, an event (other than `[DONE]`) whose payload is
/// a `response.output_text.delta`, `response.reasoning.delta`,
/// `response.function_call_arguments.delta` or `response.output_item.added`
/// event carries content; a `response.completed` or `response.failed`
/// payload alone does not.
pub proof fn law_responses_content_kinds(
    before: CandidateState,
    after: CandidateState,
    event: Seq<u8>,
    parsed: Seq<ParsedPayload>,
    r: EventAnalysis,
    i: int,
    kind: String,
)
    requires
        openai_inspected(DownstreamRouteKind::OpenAiResponses, before, after, event, parsed, r),
        vstd::utf8::valid_utf8(event),
        0 <= i < data_payloads(vstd::utf8::decode_utf8(event)).len(),
        0 <= i < parsed.len(),
        data_payloads(vstd::utf8::decode_utf8(event))[i] != "[DONE]"@,
        parsed[i] == ParsedPayload::OpenAiResponse(OpenAiResponseEvent { kind: Some(kind) }),
    ensures
        kind@ == "response.output_text.delta"@ || kind@ == "response.reasoning.delta"@ || kind@
            == "response.function_call_arguments.delta"@ || kind@ == "response.output_item.added"@
            ==> r.has_content,
        (kind@ == "response.completed"@ || kind@ == "response.failed"@) && data_payloads(
            vstd::utf8::decode_utf8(event),
        ).len() == 1 ==> !r.has_content,
{
    let ps = data_payloads(vstd::utf8::decode_utf8(event));
    reveal_strlit("response.output_text.delta");
    reveal_strlit("response.reasoning.delta");
    reveal_strlit("response.function_call_arguments.delta");
    reveal_strlit("response.output_item.added");
    reveal_strlit("response.completed");
    reveal_strlit("response.failed");
    assert(parsed_at(parsed, i) == parsed[i]);
    if kind@ == "response.output_text.delta"@ || kind@ == "response.reasoning.delta"@ || kind@
        == "response.function_call_arguments.delta"@ || kind@ == "response.output_item.added"@ {
        assert(content_at(true, ps, parsed, i));
    }
    if (kind@ == "response.completed"@ || kind@ == "response.failed"@) && ps.len() == 1 {
        assert("response.completed"@[9] != "response.output_text.delta"@[9]);
        assert("response.completed"@[9] != "response.reasoning.delta"@[9]);
        assert("response.completed"@[9] != "response.function_call_arguments.delta"@[9]);
        assert("response.completed"@[9] != "response.output_item.added"@[9]);
        assert("response.failed"@[9] != "response.output_text.delta"@[9]);
        assert("response.failed"@[9] != "response.reasoning.delta"@[9]);
        assert("response.failed"@[10] != "response.function_call_arguments.delta"@[10]);
        assert("response.failed"@[9] != "response.output_item.added"@[9]);
        assert(!content_at(true, ps, parsed, i));
        assert forall|j: int| !(#[trigger] content_at(true, ps, parsed, j)) by {
            if 0 <= j < ps.len() {
                assert(j == i);
            }
        }
    }
}


/// On the Responses route, an event (other than `[DONE]`) with a
/// `response.completed`, `response.failed`, `response.output_item.done`,
/// `response.content_part.done` or `response.output_text.done` payload
/// records that the output was finished.
pub proof fn law_responses_finish_kinds(
    before: CandidateState,
    after: CandidateState,
    event: Seq<u8>,
    parsed: Seq<ParsedPayload>,
    r: EventAnalysis,
    i: int,
    kind: String,
)
    requires
        openai_inspected(DownstreamRouteKind::OpenAiResponses, before, after, event, parsed, r),
        vstd::utf8::valid_utf8(event),
        0 <= i < data_payloads(vstd::utf8::decode_utf8(event)).len(),
        0 <= i < parsed.len(),
        data_payloads(vstd::utf8::decode_utf8(event))[i] != "[DONE]"@,
        parsed[i] == ParsedPayload::OpenAiResponse(OpenAiResponseEvent { kind: Some(kind) }),
        kind@ == "response.completed"@ || kind@ == "response.failed"@ || kind@ == "response.output_item.done"@ || kind@ == "response.content_part.done"@ || kind@ == "response.output_text.done"@,
    ensures
        after.protocol_flags.emitted_finish,
{
    let ps = data_payloads(vstd::utf8::decode_utf8(event));
    assert(parsed_at(parsed, i) == parsed[i]);
    assert(finish_at(true, ps, parsed, i));
}


/// The text is given and not empty.
pub open spec fn filled(t: Option<String>) -> bool {
    t is Some && t->0@.len() > 0
}

/// On the Chat Completions route, an event (other than `[DONE]`) carries
/// content when a choice of one of its chunks has a delta with non-empty
/// text or reasoning text, a tool call with a non-empty function name or
/// arguments, or a function call with a non-empty name or arguments. A
/// choice with a finish reason records that the output was finished.
pub proof fn law_chat_content(
    before: CandidateState,
    after: CandidateState,
    event: Seq<u8>,
    parsed: Seq<ParsedPayload>,
    r: EventAnalysis,
    i: int,
    j: int,
    t: int,
)
    requires
        openai_inspected(DownstreamRouteKind::OpenAiChatCompletions, before, after, event, parsed, r),
        vstd::utf8::valid_utf8(event),
        0 <= i < data_payloads(vstd::utf8::decode_utf8(event)).len(),
        0 <= i < parsed.len(),
        data_payloads(vstd::utf8::decode_utf8(event))[i] != "[DONE]"@,
        parsed[i] is OpenAiChat,
        0 <= j < parsed[i]->OpenAiChat_0.choices.len(),
    ensures
        ({
            let ch = parsed[i]->OpenAiChat_0.choices@[j];
            let d = ch.delta->0;
            &&& ch.delta is Some
            &&& {
                ||| filled(d.content)
                ||| filled(d.reasoning_content)
                ||| (d.tool_calls is Some && 0 <= t < d.tool_calls->0.len() && d.tool_calls->0@[t].function is Some
                    && (filled(d.tool_calls->0@[t].function->0.name) || filled(
                    d.tool_calls->0@[t].function->0.arguments,
                )))
                ||| (d.function_call is Some && (filled(d.function_call->0.name) || filled(
                    d.function_call->0.arguments,
                )))
            }
        }) ==> r.has_content,
        parsed[i]->OpenAiChat_0.choices@[j].finish_reason is Some ==> after.protocol_flags.emitted_finish,
{
    let ps = data_payloads(vstd::utf8::decode_utf8(event));
    let c = parsed[i]->OpenAiChat_0;
    assert(parsed_at(parsed, i) == parsed[i]);
    if let Some(d) = c.choices@[j].delta {
        if let Some(calls) = d.tool_calls {
            if 0 <= t < calls.len() {
                if call_has_content(calls@[t]) {
                    assert(tool_calls_have_content(calls@));
                }
            }
        }
        if delta_has_content(d) {
            assert(choice_has_content(c.choices@[j]));
            assert(chat_has_content(c));
            assert(content_at(false, ps, parsed, i));
        }
    }
    if c.choices@[j].finish_reason is Some {
        assert(chat_finishes(c));
        assert(finish_at(false, ps, parsed, i));
    }
}

} // verus!
