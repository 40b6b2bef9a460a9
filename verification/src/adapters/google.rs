//! Google `streamGenerateContent` streams: each `data:` line holds a chunk
//! of candidates whose parts carry the content.
use vstd::prelude::*;

use crate::adapters::{
    data_payloads, event_payload_texts, frames_view, json_quote, json_string, join_errors,
    kv_view, push_joined_errors, sse_data, sse_data_frame, EventAnalysis, ParsedPayload,
};
use crate::domain::types::{DownstreamRouteKind, KeyValue, ProtocolFamily};
use crate::group::race::{CandidateState, ProtocolFlags};
use crate::text::push_str;

verus! {

/// One part of a candidate's content: its text, and whether it holds a
/// function call, executable code or a code execution result.
#[derive(Debug)]
pub struct GooglePart {
    pub text: Option<String>,
    pub function_call: bool,
    pub executable_code: bool,
    pub code_execution_result: bool,
}

/// The content of a candidate.
#[derive(Debug)]
pub struct GoogleContent {
    pub parts: Vec<GooglePart>,
}

/// One candidate of a chunk.
#[derive(Debug)]
pub struct GoogleCandidate {
    pub content: GoogleContent,
    pub finish_reason: Option<String>,
}

/// A `streamGenerateContent` chunk, as far as the race reads it.
#[derive(Debug)]
pub struct GoogleChunk {
    pub candidates: Vec<GoogleCandidate>,
}

/// Reads and closes Google streams of one route.
#[derive(Debug, Clone, Copy)]
pub struct GoogleAdapter {
    route_kind: DownstreamRouteKind,
}

/// The part carries content: non-empty text, a function call, executable
/// code or a code execution result.
pub open spec fn part_has_content(p: GooglePart) -> bool {
    (p.text matches Some(t) && t@.len() > 0) || p.function_call || p.executable_code
        || p.code_execution_result
}

/// The candidate has a part that carries content.
pub open spec fn candidate_has_content(c: GoogleCandidate) -> bool {
    exists|j: int|
        0 <= j < c.content.parts.len() && part_has_content(#[trigger] c.content.parts@[j])
}

/// The candidate carries a non-empty finish reason.
pub open spec fn candidate_finishes(c: GoogleCandidate) -> bool {
    c.finish_reason matches Some(r) && r@.len() > 0
}

/// Some candidate of the chunk carries content.
pub open spec fn google_chunk_content(c: GoogleChunk) -> bool {
    exists|j: int| 0 <= j < c.candidates.len() && candidate_has_content(#[trigger] c.candidates@[j])
}

/// Some candidate of the chunk finishes.
pub open spec fn google_chunk_finishes(c: GoogleChunk) -> bool {
    exists|j: int| 0 <= j < c.candidates.len() && candidate_finishes(#[trigger] c.candidates@[j])
}

/// The payload was parsed as a chunk that carries content.
pub open spec fn google_parsed_content(p: ParsedPayload) -> bool {
    match p {
        ParsedPayload::Google(c) => google_chunk_content(c),
        _ => false,
    }
}

/// The payload was parsed as a chunk that finishes.
pub open spec fn google_parsed_finishes(p: ParsedPayload) -> bool {
    match p {
        ParsedPayload::Google(c) => google_chunk_finishes(c),
        _ => false,
    }
}

/// Payload `i` of `n` was parsed as a chunk that carries content.
pub open spec fn google_content_at(parsed: Seq<ParsedPayload>, n: int, i: int) -> bool {
    0 <= i < n && i < parsed.len() && google_parsed_content(parsed[i])
}

/// Payload `i` of `n` was parsed as a chunk that finishes.
pub open spec fn google_finish_at(parsed: Seq<ParsedPayload>, n: int, i: int) -> bool {
    0 <= i < n && i < parsed.len() && google_parsed_finishes(parsed[i])
}

/// The message that reports a failed race to a Google client.
pub open spec fn google_failure_message(group: Seq<char>, errors: Seq<(Seq<char>, Seq<char>)>) -> Seq<char> {
    "All candidates failed in group '"@ + group + "': "@ + join_errors(errors)
}

/// A chunk with one finished model candidate whose parts are `parts`
/// (keys in `serde_json`'s order: sorted).
pub open spec fn google_stop_chunk(parts: Seq<char>) -> Seq<char> {
    "{\"candidates\":[{\"content\":{\"parts\":["@ + parts
        + "],\"role\":\"model\"},\"finishReason\":\"STOP\"}]}"@
}

/// The frames that close a stream that broke off: a finishing chunk unless
/// one was seen.
pub open spec fn google_close_frames(flags: ProtocolFlags) -> Seq<Seq<char>> {
    if flags.emitted_finish {
        seq![]
    } else {
        seq![sse_data_frame(google_stop_chunk(seq![]))]
    }
}

fn part_content(p: &GooglePart) -> (r: bool)
    ensures
        r == part_has_content(*p),
{
    let text = match &p.text {
        Some(t) => t.as_str().unicode_len() > 0,
        None => false,
    };
    text || p.function_call || p.executable_code || p.code_execution_result
}

fn candidate_content(c: &GoogleCandidate) -> (r: bool)
    ensures
        r == candidate_has_content(*c),
{
    let mut j: usize = 0;
    while j < c.content.parts.len()
        invariant
            j <= c.content.parts.len(),
            forall|k: int| 0 <= k < j ==> !part_has_content(#[trigger] c.content.parts@[k]),
        decreases c.content.parts.len() - j,
    {
        if part_content(&c.content.parts[j]) {
            return true;
        }
        j += 1;
    }
    false
}

fn chunk_content(c: &GoogleChunk) -> (r: bool)
    ensures
        r == google_chunk_content(*c),
{
    let mut j: usize = 0;
    while j < c.candidates.len()
        invariant
            j <= c.candidates.len(),
            forall|k: int| 0 <= k < j ==> !candidate_has_content(#[trigger] c.candidates@[k]),
        decreases c.candidates.len() - j,
    {
        if candidate_content(&c.candidates[j]) {
            return true;
        }
        j += 1;
    }
    false
}

fn chunk_finishes(c: &GoogleChunk) -> (r: bool)
    ensures
        r == google_chunk_finishes(*c),
{
    let mut j: usize = 0;
    while j < c.candidates.len()
        invariant
            j <= c.candidates.len(),
            forall|k: int| 0 <= k < j ==> !candidate_finishes(#[trigger] c.candidates@[k]),
        decreases c.candidates.len() - j,
    {
        let fin = match &c.candidates[j].finish_reason {
            Some(r) => r.as_str().unicode_len() > 0,
            None => false,
        };
        if fin {
            return true;
        }
        j += 1;
    }
    false
}

/// What reading `event` does: nothing for a non-UTF-8 event; else the
/// result tells whether a parsed chunk carries content and only the finish
/// flag changes.
pub open spec fn google_inspected(
    before: CandidateState,
    after: CandidateState,
    event: Seq<u8>,
    parsed: Seq<ParsedPayload>,
    r: EventAnalysis,
) -> bool {
    if !vstd::utf8::valid_utf8(event) {
        !r.has_content && after == before
    } else {
        let n = data_payloads(vstd::utf8::decode_utf8(event)).len() as int;
        &&& r.has_content == exists|i: int| #[trigger] google_content_at(parsed, n, i)
        &&& after == (CandidateState {
            protocol_flags: ProtocolFlags {
                emitted_finish: before.protocol_flags.emitted_finish || exists|i: int|
                    #[trigger] google_finish_at(parsed, n, i),
                ..before.protocol_flags
            },
            ..before
        })
    }
}

impl GoogleAdapter {
    /// The route the adapter serves.
    pub closed spec fn route(&self) -> DownstreamRouteKind {
        self.route_kind
    }

    /// An adapter for the given Google route.
    pub fn new(route_kind: DownstreamRouteKind) -> (r: Self)
        ensures
            r.route() == route_kind,
    {
        GoogleAdapter { route_kind }
    }

    /// The protocol family this adapter reads.
    pub fn protocol_family(&self) -> (r: ProtocolFamily)
        ensures
            r == ProtocolFamily::Google,
    {
        ProtocolFamily::Google
    }

    /// The downstream route this adapter serves.
    pub fn route_kind(&self) -> (r: DownstreamRouteKind)
        ensures
            r == self.route(),
    {
        self.route_kind
    }

    /// The label of the protocol in metrics.
    pub fn protocol_label(&self) -> (r: &'static str)
        ensures
            r@ == "google"@,
    {
        "google"
    }

    /// Reads one event of a candidate's stream. `parsed[i]` is the parse of
    /// the event's `i`-th `data:` payload (`ParsedPayload::Invalid` where it
    /// is not a chunk). A chunk with a content part marks the event as
    /// content; one with a finish reason records that the output was
    /// finished. A non-UTF-8 event changes nothing and carries no content.
    pub fn inspect_event(
        &self,
        state: &mut CandidateState,
        event: &[u8],
        parsed: &Vec<ParsedPayload>,
    ) -> (r: EventAnalysis)
        ensures
            google_inspected(*old(state), *final(state), event@, parsed@, r),
    {
        let ps = match event_payload_texts(event) {
            Some(p) => p,
            None => return EventAnalysis { has_content: false },
        };
        let n = ps.len();
        assert(n == data_payloads(vstd::utf8::decode_utf8(event@)).len());
        let mut has_content = false;
        let mut finish = false;
        let mut i: usize = 0;
        while i < n && i < parsed.len()
            invariant
                i <= n,
                i <= parsed.len(),
                has_content == exists|k: int| 0 <= k < i && #[trigger] google_content_at(
                    parsed@,
                    n as int,
                    k,
                ),
                finish == exists|k: int| 0 <= k < i && #[trigger] google_finish_at(
                    parsed@,
                    n as int,
                    k,
                ),
            decreases n - i,
        {
            match &parsed[i] {
                ParsedPayload::Google(c) => {
                    let a = chunk_content(c);
                    let b = chunk_finishes(c);
                    assert(a == google_content_at(parsed@, n as int, i as int));
                    assert(b == google_finish_at(parsed@, n as int, i as int));
                    has_content = has_content || a;
                    finish = finish || b;
                },
                _ => {
                    assert(!google_content_at(parsed@, n as int, i as int));
                    assert(!google_finish_at(parsed@, n as int, i as int));
                },
            }
            i += 1;
        }
        if finish {
            state.protocol_flags.emitted_finish = true;
        }
        proof {
            assert(forall|k: int| #[trigger] google_content_at(parsed@, n as int, k) ==> 0 <= k < i);
            assert(forall|k: int| #[trigger] google_finish_at(parsed@, n as int, k) ==> 0 <= k < i);
        }
        EventAnalysis { has_content }
    }

    /// The events that close a candidate's stream when it broke off.
    pub fn fallback_close_events(&self, group_name: &str, state: &CandidateState) -> (r: Vec<String>)
        ensures
            frames_view(r@) == google_close_frames(state.protocol_flags),
    {
        let mut out: Vec<String> = Vec::new();
        if !state.protocol_flags.emitted_finish {
            out.push(
                sse_data(
                    "{\"candidates\":[{\"content\":{\"parts\":[],\"role\":\"model\"},\"finishReason\":\"STOP\"}]}",
                ),
            );
            proof {
                reveal_strlit("{\"candidates\":[{\"content\":{\"parts\":[],\"role\":\"model\"},\"finishReason\":\"STOP\"}]}");
                reveal_strlit("{\"candidates\":[{\"content\":{\"parts\":[");
                reveal_strlit("],\"role\":\"model\"},\"finishReason\":\"STOP\"}]}");
            }
            assert("{\"candidates\":[{\"content\":{\"parts\":[],\"role\":\"model\"},\"finishReason\":\"STOP\"}]}"@
                =~= google_stop_chunk(seq![]));
        }
        assert(frames_view(out@) =~= google_close_frames(state.protocol_flags));
        out
    }

    /// The events that report a failed race: one finished chunk whose text
    /// names each candidate's failure.
    pub fn all_failed_events(&self, group_name: &str, errors: &Vec<KeyValue>) -> (r: Vec<String>)
        ensures
            frames_view(r@) == seq![
                sse_data_frame(
                    google_stop_chunk(
                        "{\"text\":"@ + json_string(
                            google_failure_message(group_name@, kv_view(errors@)),
                        ) + "}"@,
                    ),
                ),
            ],
    {
        let mut message = String::new();
        push_str(&mut message, "All candidates failed in group '");
        push_str(&mut message, group_name);
        push_str(&mut message, "': ");
        push_joined_errors(&mut message, errors);
        let quoted = json_quote(message.as_str());
        let mut body = String::new();
        push_str(&mut body, "{\"candidates\":[{\"content\":{\"parts\":[");
        push_str(&mut body, "{\"text\":");
        push_str(&mut body, quoted.as_str());
        push_str(&mut body, "}");
        push_str(&mut body, "],\"role\":\"model\"},\"finishReason\":\"STOP\"}]}");
        assert(message@ =~= google_failure_message(group_name@, kv_view(errors@)));
        assert(body@ =~= google_stop_chunk("{\"text\":"@ + quoted@ + "}"@));
        let mut out: Vec<String> = Vec::new();
        out.push(sse_data(body.as_str()));
        assert(frames_view(out@) =~= seq![sse_data_frame(body@)]);
        out
    }
}


/// A Google event carries content when one of its payloads is a chunk with
/// a candidate part that has non-empty text, a function call, executable
/// code or a code execution result; a payload with a candidate that has a
/// non-empty finish reason records that the output was finished.
pub proof fn law_google_content(
    before: CandidateState,
    after: CandidateState,
    event: Seq<u8>,
    parsed: Seq<ParsedPayload>,
    r: EventAnalysis,
    i: int,
    j: int,
    k: int,
)
    requires
        google_inspected(before, after, event, parsed, r),
        vstd::utf8::valid_utf8(event),
        0 <= i < data_payloads(vstd::utf8::decode_utf8(event)).len(),
        0 <= i < parsed.len(),
        parsed[i] is Google,
        0 <= j < parsed[i]->Google_0.candidates.len(),
    ensures
        0 <= k < parsed[i]->Google_0.candidates@[j].content.parts.len() && ({
            let part = parsed[i]->Google_0.candidates@[j].content.parts@[k];
            (part.text matches Some(t) && t@.len() > 0) || part.function_call || part.executable_code
                || part.code_execution_result
        }) ==> r.has_content,
        (parsed[i]->Google_0.candidates@[j].finish_reason matches Some(f) && f@.len() > 0)
            ==> after.protocol_flags.emitted_finish,
{
    let n = data_payloads(vstd::utf8::decode_utf8(event)).len() as int;
    let c = parsed[i]->Google_0;
    if 0 <= k < c.candidates@[j].content.parts.len() {
        if part_has_content(c.candidates@[j].content.parts@[k]) {
            assert(candidate_has_content(c.candidates@[j]));
            assert(google_content_at(parsed, n, i));
        }
    }
    if candidate_finishes(c.candidates@[j]) {
        assert(google_finish_at(parsed, n, i));
    }
}

} // verus!
