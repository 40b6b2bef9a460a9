//! The Anthropic Messages stream: events are named (`event:` lines) and
//! content blocks are opened and closed by index.
use vstd::prelude::*;

use crate::adapters::{
    frames_view, json_quote, json_string, join_errors, kv_view, push_joined_errors, sse_event,
    sse_event_frame, utf8_chars, EventAnalysis,
};
use crate::domain::types::{DownstreamRouteKind, KeyValue, ProtocolFamily};
use crate::group::race::{CandidateState, ProtocolFlags};
use crate::text::{
    after_prefix_trimmed, chars_eq, chars_of, contains_chars, contains_seq, decimal,
    find_chars, has_prefix, lead_ws, lines, occurs_at, push_decimal, push_str, split_lines,
    strip_prefix_trim, trim_bounds, trim_start, copy_char_range, char_is_ws, is_ws,
    lemma_lead_ws_char,
};

verus! {

/// Reads and closes Anthropic Messages streams.
#[derive(Debug, Clone, Copy)]
pub struct AnthropicAdapter;

// ---------------------------------------------------------------------------
// Reading events
// ---------------------------------------------------------------------------

/// The trimmed rest of the first line of `ls`, from position `i` on, that
/// starts with `p`.
pub open spec fn first_prefixed_from(ls: Seq<Seq<char>>, p: Seq<char>, i: int) -> Option<Seq<char>>
    decreases ls.len() - i,
{
    if i < 0 || i >= ls.len() {
        None
    } else if has_prefix(ls[i], p) {
        Some(after_prefix_trimmed(ls[i], p))
    } else {
        first_prefixed_from(ls, p, i + 1)
    }
}

/// The trimmed rest of the first line of `ev` that starts with `p`.
pub open spec fn first_prefixed(ev: Seq<char>, p: Seq<char>) -> Option<Seq<char>> {
    first_prefixed_from(lines(ev), p, 0)
}

/// The trimmed rest of the first line that starts with `p`.
fn first_prefixed_line(ls: &Vec<Vec<char>>, p: &Vec<char>) -> (r: Option<String>)
    ensures
        match r {
            Some(s) => first_prefixed_from(ls@.map_values(|l: Vec<char>| l@), p@, 0) == Some(s@),
            None => first_prefixed_from(ls@.map_values(|l: Vec<char>| l@), p@, 0).is_none(),
        },
{
    let ghost lv = ls@.map_values(|l: Vec<char>| l@);
    let mut i: usize = 0;
    while i < ls.len()
        invariant
            i <= ls.len(),
            lv == ls@.map_values(|l: Vec<char>| l@),
            first_prefixed_from(lv, p@, 0) == first_prefixed_from(lv, p@, i as int),
        decreases ls.len() - i,
    {
        assert(lv[i as int] == ls@[i as int]@);
        match strip_prefix_trim(&ls[i], p) {
            Some(s) => return Some(s),
            None => {},
        }
        i += 1;
    }
    None
}

/// Position of the first occurrence of `n` in `s` at or after `i`, or -1.
pub open spec fn find_from(s: Seq<char>, n: Seq<char>, i: int) -> int
    decreases s.len() + 1 - i,
{
    if i < 0 || i > s.len() {
        -1
    } else if occurs_at(s, n, i) {
        i
    } else {
        find_from(s, n, i + 1)
    }
}

proof fn lemma_find_from(s: Seq<char>, n: Seq<char>, i: int, k: int)
    requires
        0 <= i <= k <= s.len(),
        forall|j: int| i <= j < k ==> !occurs_at(s, n, j),
    ensures
        occurs_at(s, n, k) ==> find_from(s, n, i) == k,
        (forall|j: int| k <= j ==> !occurs_at(s, n, j)) ==> find_from(s, n, i) == -1,
    decreases s.len() + 1 - i,
{
    if i < k {
        lemma_find_from(s, n, i + 1, k);
    } else if !occurs_at(s, n, k) && k < s.len() {
        lemma_find_from(s, n, k + 1, k + 1);
    } else if !occurs_at(s, n, k) {
        assert(find_from(s, n, k + 1) == -1);
    }
}

/// Number of leading ASCII digits of `s`.
pub open spec fn leading_digits(s: Seq<char>) -> nat
    decreases s.len(),
{
    if s.len() > 0 && '0' <= s[0] <= '9' {
        1 + leading_digits(s.drop_first())
    } else {
        0
    }
}

/// The number written by the decimal digits `d`.
pub open spec fn digits_value(d: Seq<char>) -> nat
    decreases d.len(),
{
    if d.len() == 0 {
        0
    } else {
        digits_value(d.drop_last()) * 10 + ((d.last() as int) - 48) as nat
    }
}

/// The unsigned integer that follows `"field"` and a colon in `payload`: the
/// first occurrence of the quoted field name, then the first `:` after it,
/// then optional whitespace and at least one digit; `None` when any part is
/// missing or the number does not fit a `usize`.
pub open spec fn json_usize_field(payload: Seq<char>, field: Seq<char>) -> Option<nat> {
    let needle = "\""@ + field + "\""@;
    let start = find_from(payload, needle, 0);
    if start < 0 {
        None
    } else {
        let after = payload.subrange(start + needle.len(), payload.len() as int);
        let colon = find_from(after, ":"@, 0);
        if colon < 0 {
            None
        } else {
            let rest = trim_start(after.subrange(colon + 1, after.len() as int));
            let k = leading_digits(rest);
            if k == 0 {
                None
            } else if digits_value(rest.subrange(0, k as int)) > usize::MAX {
                None
            } else {
                Some(digits_value(rest.subrange(0, k as int)))
            }
        }
    }
}

proof fn lemma_leading_digits(s: Seq<char>, k: int)
    requires
        0 <= k <= s.len(),
        forall|j: int| 0 <= j < k ==> '0' <= #[trigger] s[j] <= '9',
        k < s.len() ==> !('0' <= s[k] <= '9'),
    ensures
        leading_digits(s) == k,
    decreases k,
{
    if k > 0 {
        assert forall|j: int| 0 <= j < k - 1 implies '0' <= #[trigger] s.drop_first()[j] <= '9' by {
            assert(s.drop_first()[j] == s[j + 1]);
        }
        lemma_leading_digits(s.drop_first(), k - 1);
    }
}

/// Position of the first occurrence of `n` in `s`.
fn find_exec(s: &Vec<char>, n: &Vec<char>) -> (r: Option<usize>)
    ensures
        match r {
            Some(i) => i as int == find_from(s@, n@, 0) && occurs_at(s@, n@, i as int),
            None => find_from(s@, n@, 0) < 0,
        },
{
    match find_chars(s, n) {
        Some(i) => {
            proof {
                lemma_find_from(s@, n@, 0, i as int);
            }
            Some(i)
        },
        None => {
            proof {
                lemma_find_from(s@, n@, 0, 0);
            }
            None
        },
    }
}

/// The unsigned integer after `"field":` in a JSON text, if any.
pub fn extract_json_usize_field(payload: &str, field: &str) -> (r: Option<usize>)
    ensures
        match json_usize_field(payload@, field@) {
            Some(v) => r == Some(v as usize),
            None => r.is_none(),
        },
{
    let p = chars_of(payload);
    let mut needle_s = String::new();
    push_str(&mut needle_s, "\"");
    push_str(&mut needle_s, field);
    push_str(&mut needle_s, "\"");
    let needle = chars_of(needle_s.as_str());
    let start = match find_exec(&p, &needle) {
        Some(i) => i,
        None => return None,
    };
    assert(occurs_at(p@, needle@, start as int));
    let plen = p.len();
    assert(start + needle.len() <= plen);
    let after = copy_char_range(&p, start + needle.len(), plen);
    let colon_n = chars_of(":");
    let colon = match find_exec(&after, &colon_n) {
        Some(i) => i,
        None => return None,
    };
    proof {
        reveal_strlit(":");
    }
    assert(occurs_at(after@, colon_n@, colon as int));
    assert(colon + 1 <= after@.len());
    let tail = copy_char_range(&after, colon + 1, after.len());
    let mut a: usize = 0;
    while a < tail.len() && char_is_ws(tail[a])
        invariant
            a <= tail.len(),
            forall|k: int| 0 <= k < a ==> is_ws(#[trigger] tail@[k]),
        decreases tail.len() - a,
    {
        a += 1;
    }
    proof {
        lemma_lead_ws_char(tail@, a as int);
    }
    let ghost rest = trim_start(tail@);
    assert(rest =~= tail@.subrange(a as int, tail@.len() as int));
    let mut k = a;
    let mut value: usize = 0;
    let mut overflow = false;
    while k < tail.len() && '0' <= tail[k] && tail[k] <= '9'
        invariant
            a <= k <= tail.len(),
            rest == tail@.subrange(a as int, tail@.len() as int),
            forall|j: int| a <= j < k ==> '0' <= #[trigger] tail@[j] <= '9',
            !overflow ==> value == digits_value(tail@.subrange(a as int, k as int)),
            overflow ==> digits_value(tail@.subrange(a as int, k as int)) > usize::MAX,
        decreases tail.len() - k,
    {
        let d = (tail[k] as u32 - 48) as usize;
        let ghost prefix = tail@.subrange(a as int, k + 1);
        assert(prefix.drop_last() =~= tail@.subrange(a as int, k as int));
        assert(prefix.last() == tail@[k as int]);
        if !overflow {
            if value > (usize::MAX - d) / 10 {
                overflow = true;
                assert(value * 10 + d > usize::MAX) by (nonlinear_arith)
                    requires
                        value > (usize::MAX - d) / 10,
                        d <= 9,
                ;
            } else {
                assert(value * 10 + d <= usize::MAX) by (nonlinear_arith)
                    requires
                        value <= (usize::MAX - d) / 10,
                        d <= 9,
                ;
                value = value * 10 + d;
            }
        } else {
            assert(digits_value(prefix) >= digits_value(prefix.drop_last())) by (nonlinear_arith)
                requires
                    digits_value(prefix) == digits_value(prefix.drop_last()) * 10 + ((prefix.last() as int) - 48) as nat,
                    (prefix.last() as int) >= 48,
            ;
        }
        k += 1;
    }
    proof {
        assert forall|j: int| 0 <= j < k - a implies '0' <= #[trigger] rest[j] <= '9' by {
            assert(rest[j] == tail@[j + a]);
        }
        if k < tail.len() {
            assert(rest[k - a] == tail@[k as int]);
        }
        lemma_leading_digits(rest, (k - a) as int);
        assert(rest.subrange(0, (k - a) as int) =~= tail@.subrange(a as int, k as int));
    }
    if k == a || overflow {
        return None;
    }
    Some(value)
}

/// Position of the first `x` in `s`, or -1.
pub open spec fn first_pos(s: Seq<usize>, x: usize) -> int
    decreases s.len(),
{
    if s.len() == 0 {
        -1
    } else if first_pos(s.drop_last(), x) >= 0 {
        first_pos(s.drop_last(), x)
    } else if s.last() == x {
        s.len() - 1
    } else {
        -1
    }
}

/// The open content blocks after a `content_block_stop` for `ix`: the last
/// one when it is `ix`, else the first `ix` when there is one.
pub open spec fn close_block(blocks: Seq<usize>, ix: usize) -> Seq<usize> {
    if blocks.len() > 0 && blocks.last() == ix {
        blocks.drop_last()
    } else if first_pos(blocks, ix) >= 0 {
        blocks.remove(first_pos(blocks, ix))
    } else {
        blocks
    }
}

/// The open content blocks after event `ev`: a `content_block_start` with an
/// index opens that block, a `content_block_stop` with an index closes it;
/// the event name is that of the first `event:` line and the index is read
/// from the first `data:` line.
pub open spec fn track_blocks(blocks: Seq<usize>, ev: Seq<char>) -> Seq<usize> {
    match (first_prefixed(ev, "event:"@), first_prefixed(ev, "data:"@)) {
        (Some(name), Some(payload)) => match json_usize_field(payload, "index"@) {
            Some(ix) => if name == "content_block_start"@ {
                blocks.push(ix as usize)
            } else if name == "content_block_stop"@ {
                close_block(blocks, ix as usize)
            } else {
                blocks
            },
            None => blocks,
        },
        _ => blocks,
    }
}

/// The event carries streamed content: a `content_block_delta` with a text,
/// thinking or tool-input delta.
pub open spec fn anthropic_content(ev: Seq<char>) -> bool {
    contains_seq(ev, "event: content_block_delta"@) && (contains_seq(ev, "\"text_delta\""@)
        || contains_seq(ev, "\"thinking_delta\""@) || contains_seq(ev, "\"input_json_delta\""@))
}

/// The closing flags after event `ev`.
pub open spec fn anthropic_flags(f: ProtocolFlags, ev: Seq<char>) -> ProtocolFlags {
    ProtocolFlags {
        emitted_message_delta: f.emitted_message_delta || contains_seq(ev, "event: message_delta"@),
        emitted_message_stop: f.emitted_message_stop || contains_seq(ev, "event: message_stop"@),
        ..f
    }
}

fn lit_contains(v: &Vec<char>, lit: &str) -> (r: bool)
    ensures
        r == contains_seq(v@, lit@),
{
    let n = chars_of(lit);
    contains_chars(v, &n)
}

fn first_index_of(v: &Vec<usize>, x: usize) -> (r: Option<usize>)
    ensures
        match r {
            Some(p) => p as int == first_pos(v@, x),
            None => first_pos(v@, x) < 0,
        },
{
    let mut i: usize = 0;
    while i < v.len()
        invariant
            i <= v.len(),
            first_pos(v@.subrange(0, i as int), x) < 0,
        decreases v.len() - i,
    {
        assert(v@.subrange(0, i + 1).drop_last() =~= v@.subrange(0, i as int));
        if v[i] == x {
            proof {
                lemma_first_pos_prefix(v@, i as int + 1, x);
            }
            return Some(i);
        }
        i += 1;
    }
    assert(v@.subrange(0, v.len() as int) =~= v@);
    None
}

proof fn lemma_first_pos_bound(s: Seq<usize>, x: usize)
    ensures
        first_pos(s, x) < s.len(),
        first_pos(s, x) >= 0 ==> s[first_pos(s, x)] == x,
    decreases s.len(),
{
    if s.len() > 0 {
        lemma_first_pos_bound(s.drop_last(), x);
    }
}

proof fn lemma_first_pos_prefix(s: Seq<usize>, k: int, x: usize)
    requires
        0 < k <= s.len(),
        first_pos(s.subrange(0, k), x) >= 0,
    ensures
        first_pos(s, x) == first_pos(s.subrange(0, k), x),
    decreases s.len() - k,
{
    if k < s.len() {
        assert(s.subrange(0, k + 1).drop_last() =~= s.subrange(0, k));
        lemma_first_pos_prefix(s, k + 1, x);
    } else {
        assert(s.subrange(0, k) =~= s);
    }
}

/// What reading `event` does: nothing for a non-UTF-8 event; else the open
/// blocks and closing flags follow the event and the result tells whether it
/// carries content.
pub open spec fn anthropic_inspected(
    before: CandidateState,
    after: CandidateState,
    event: Seq<u8>,
    r: EventAnalysis,
) -> bool {
    if !vstd::utf8::valid_utf8(event) {
        !r.has_content && after == before
    } else {
        let ev = vstd::utf8::decode_utf8(event);
        &&& r.has_content == anthropic_content(ev)
        &&& after.protocol_open_blocks@ == track_blocks(before.protocol_open_blocks@, ev)
        &&& after == (CandidateState {
            protocol_flags: anthropic_flags(before.protocol_flags, ev),
            protocol_open_blocks: after.protocol_open_blocks,
            ..before
        })
    }
}

impl AnthropicAdapter {
    /// The protocol family this adapter reads.
    pub fn protocol_family(&self) -> (r: ProtocolFamily)
        ensures
            r == ProtocolFamily::Anthropic,
    {
        ProtocolFamily::Anthropic
    }

    /// The downstream route this adapter serves.
    pub fn route_kind(&self) -> (r: DownstreamRouteKind)
        ensures
            r == DownstreamRouteKind::AnthropicMessages,
    {
        DownstreamRouteKind::AnthropicMessages
    }

    /// The label of the protocol in metrics.
    pub fn protocol_label(&self) -> (r: &'static str)
        ensures
            r@ == "anthropic"@,
    {
        "anthropic"
    }

    /// Reads one event of a candidate's stream: tracks its open content
    /// blocks and closing events, and tells whether it carries content. A
    /// non-UTF-8 event changes nothing and carries no content.
    pub fn inspect_event(&self, state: &mut CandidateState, event: &[u8]) -> (r: EventAnalysis)
        ensures
            anthropic_inspected(*old(state), *final(state), event@, r),
    {
        let ev = match utf8_chars(event) {
            Some(v) => v,
            None => return EventAnalysis { has_content: false },
        };
        track_content_blocks(state, &ev);
        if lit_contains(&ev, "event: message_delta") {
            state.protocol_flags.emitted_message_delta = true;
        }
        if lit_contains(&ev, "event: message_stop") {
            state.protocol_flags.emitted_message_stop = true;
        }
        let has_content = lit_contains(&ev, "event: content_block_delta") && (lit_contains(
            &ev,
            "\"text_delta\"",
        ) || lit_contains(&ev, "\"thinking_delta\"") || lit_contains(&ev, "\"input_json_delta\""));
        EventAnalysis { has_content }
    }
}

/// Opens or closes the content block that event `ev` names.
fn track_content_blocks(state: &mut CandidateState, ev: &Vec<char>)
    ensures
        final(state).protocol_open_blocks@ == track_blocks(old(state).protocol_open_blocks@, ev@),
        *final(state) == (CandidateState {
            protocol_open_blocks: final(state).protocol_open_blocks,
            ..*old(state)
        }),
{
    let ls = split_lines(ev);
    let event_p = chars_of("event:");
    let data_p = chars_of("data:");
    let name = match first_prefixed_line(&ls, &event_p) {
        Some(n) => n,
        None => return ,
    };
    let payload = match first_prefixed_line(&ls, &data_p) {
        Some(p) => p,
        None => return ,
    };
    let index = match extract_json_usize_field(payload.as_str(), "index") {
        Some(i) => i,
        None => return ,
    };
    let name_c = chars_of(name.as_str());
    let start_c = chars_of("content_block_start");
    let stop_c = chars_of("content_block_stop");
    if chars_eq(&name_c, &start_c) {
        state.protocol_open_blocks.push(index);
    } else if chars_eq(&name_c, &stop_c) {
        let n = state.protocol_open_blocks.len();
        if n > 0 && state.protocol_open_blocks[n - 1] == index {
            state.protocol_open_blocks.pop();
        } else {
            match first_index_of(&state.protocol_open_blocks, index) {
                Some(p) => {
                    proof {
                        lemma_first_pos_bound(state.protocol_open_blocks@, index);
                    }
                    state.protocol_open_blocks.remove(p);
                },
                None => {},
            }
        }
    }
}

// ---------------------------------------------------------------------------
// Closing and failure events
// ---------------------------------------------------------------------------

/// The data of a `message_delta` that ends a turn.
pub open spec fn message_delta_data() -> Seq<char> {
    "{\"type\":\"message_delta\",\"delta\":{\"stop_reason\":\"end_turn\",\"stop_sequence\":null},\"usage\":{\"output_tokens\":1}}"@
}

/// The data of a `message_stop`.
pub open spec fn message_stop_data() -> Seq<char> {
    "{\"type\":\"message_stop\"}"@
}

/// The `content_block_stop` frame for block `ix`.
pub open spec fn block_stop_frame(ix: usize) -> Seq<char> {
    sse_event_frame(
        "content_block_stop"@,
        "{\"type\":\"content_block_stop\",\"index\":"@ + decimal(ix as nat) + "}"@,
    )
}

/// Stop frames for the blocks `blocks[0..k]`, the last-opened first.
pub open spec fn block_stop_frames(blocks: Seq<usize>, k: int) -> Seq<Seq<char>>
    decreases k,
{
    if k <= 0 {
        seq![]
    } else {
        seq![block_stop_frame(blocks[k - 1])] + block_stop_frames(blocks, k - 1)
    }
}

/// The frames that close a stream that ended abruptly: a stop for each
/// open content block, newest first, then a `message_delta` and a
/// `message_stop` unless the stream already carried them.
pub open spec fn anthropic_close_frames(flags: ProtocolFlags, blocks: Seq<usize>) -> Seq<Seq<char>> {
    block_stop_frames(blocks, blocks.len() as int) + (if !flags.emitted_message_delta {
        seq![sse_event_frame("message_delta"@, message_delta_data())]
    } else {
        seq![]
    }) + (if !flags.emitted_message_stop {
        seq![sse_event_frame("message_stop"@, message_stop_data())]
    } else {
        seq![]
    })
}

/// The message that reports a failed race to an Anthropic client.
pub open spec fn anthropic_failure_message(group: Seq<char>, errors: Seq<(Seq<char>, Seq<char>)>) -> Seq<char> {
    "All candidates failed in group '"@ + group + "': "@ + join_errors(errors)
}

/// The frames of a complete assistant message whose text reports a failed
/// race.
pub open spec fn anthropic_failure_frames(message: Seq<char>) -> Seq<Seq<char>> {
    seq![
        sse_event_frame("message_start"@, "{\"type\":\"message_start\",\"message\":{\"id\":\"msg_race_failed\",\"type\":\"message\",\"role\":\"assistant\",\"content\":[],\"model\":\"race-gateway\",\"stop_reason\":null,\"stop_sequence\":null,\"usage\":{\"input_tokens\":0,\"output_tokens\":0}}}"@),
        sse_event_frame("content_block_start"@, "{\"type\":\"content_block_start\",\"index\":0,\"content_block\":{\"type\":\"text\",\"text\":\"\"}}"@),
        sse_event_frame("content_block_delta"@, "{\"type\":\"content_block_delta\",\"index\":0,\"delta\":{\"type\":\"text_delta\",\"text\":"@ + json_string(message) + "}}"@),
        sse_event_frame("content_block_stop"@, "{\"type\":\"content_block_stop\",\"index\":0}"@),
        sse_event_frame("message_delta"@, message_delta_data()),
        sse_event_frame("message_stop"@, message_stop_data()),
    ]
}

impl AnthropicAdapter {
    /// The events that close a candidate's stream when it broke off.
    pub fn fallback_close_events(&self, group_name: &str, state: &CandidateState) -> (r: Vec<String>)
        ensures
            frames_view(r@) == anthropic_close_frames(state.protocol_flags, state.protocol_open_blocks@),
    {
        let blocks = &state.protocol_open_blocks;
        let mut out: Vec<String> = Vec::new();
        let mut k = blocks.len();
        proof {
            lemma_block_stop_frames_len(blocks@, blocks.len() as int);
        }
        while k > 0
            invariant
                k <= blocks.len(),
                block_stop_frames(blocks@, blocks.len() as int).len() == blocks.len(),
                frames_view(out@) == block_stop_frames(blocks@, blocks.len() as int).subrange(
                    0,
                    (blocks.len() - k) as int,
                ),
            decreases k,
        {
            let mut data = String::new();
            push_str(&mut data, "{\"type\":\"content_block_stop\",\"index\":");
            push_decimal(&mut data, blocks[k - 1]);
            push_str(&mut data, "}");
            assert(data@ =~= "{\"type\":\"content_block_stop\",\"index\":"@ + decimal(
                blocks@[k - 1] as nat,
            ) + "}"@);
            let frame = sse_event("content_block_stop", data.as_str());
            let ghost before = out@;
            out.push(frame);
            proof {
                let n = blocks.len() as int;
                let f = block_stop_frames(blocks@, n);
                lemma_block_stop_frames_index(blocks@, n, n - k);
                assert(f[n - k] == block_stop_frame(blocks@[k - 1]));
                assert(frame@ == f[n - k]);
                assert(frames_view(out@) =~= frames_view(before).push(frame@));
                assert(f.subrange(0, n - k + 1) =~= f.subrange(0, n - k).push(f[n - k]));
                assert(frames_view(out@) =~= block_stop_frames(blocks@, blocks.len() as int).subrange(
                    0,
                    (blocks.len() - k + 1) as int,
                ));
            }
            k -= 1;
        }
        proof {
            lemma_block_stop_frames_len(blocks@, blocks.len() as int);
        }
        assert(frames_view(out@) =~= block_stop_frames(blocks@, blocks.len() as int));
        let ghost stops = out@;
        if !state.protocol_flags.emitted_message_delta {
            out.push(sse_event("message_delta", "{\"type\":\"message_delta\",\"delta\":{\"stop_reason\":\"end_turn\",\"stop_sequence\":null},\"usage\":{\"output_tokens\":1}}"));
        }
        let ghost with_delta = out@;
        if !state.protocol_flags.emitted_message_stop {
            out.push(sse_event("message_stop", "{\"type\":\"message_stop\"}"));
        }
        assert(frames_view(out@) =~= anthropic_close_frames(state.protocol_flags, blocks@));
        out
    }

    /// The events that report a failed race: a whole assistant message whose
    /// text names each candidate's failure.
    pub fn all_failed_events(&self, group_name: &str, errors: &Vec<KeyValue>) -> (r: Vec<String>)
        ensures
            frames_view(r@) == anthropic_failure_frames(
                anthropic_failure_message(group_name@, kv_view(errors@)),
            ),
    {
        let mut message = String::new();
        push_str(&mut message, "All candidates failed in group '");
        push_str(&mut message, group_name);
        push_str(&mut message, "': ");
        push_joined_errors(&mut message, errors);
        let quoted = json_quote(message.as_str());
        let mut delta = String::new();
        push_str(&mut delta, "{\"type\":\"content_block_delta\",\"index\":0,\"delta\":{\"type\":\"text_delta\",\"text\":");
        push_str(&mut delta, quoted.as_str());
        push_str(&mut delta, "}}");
        let mut out: Vec<String> = Vec::new();
        out.push(sse_event("message_start", "{\"type\":\"message_start\",\"message\":{\"id\":\"msg_race_failed\",\"type\":\"message\",\"role\":\"assistant\",\"content\":[],\"model\":\"race-gateway\",\"stop_reason\":null,\"stop_sequence\":null,\"usage\":{\"input_tokens\":0,\"output_tokens\":0}}}"));
        out.push(sse_event("content_block_start", "{\"type\":\"content_block_start\",\"index\":0,\"content_block\":{\"type\":\"text\",\"text\":\"\"}}"));
        out.push(sse_event("content_block_delta", delta.as_str()));
        out.push(sse_event("content_block_stop", "{\"type\":\"content_block_stop\",\"index\":0}"));
        out.push(sse_event("message_delta", "{\"type\":\"message_delta\",\"delta\":{\"stop_reason\":\"end_turn\",\"stop_sequence\":null},\"usage\":{\"output_tokens\":1}}"));
        out.push(sse_event("message_stop", "{\"type\":\"message_stop\"}"));
        assert(message@ =~= anthropic_failure_message(group_name@, kv_view(errors@)));
        assert(frames_view(out@) =~= anthropic_failure_frames(message@));
        out
    }
}

proof fn lemma_block_stop_frames_len(blocks: Seq<usize>, k: int)
    requires
        0 <= k,
    ensures
        block_stop_frames(blocks, k).len() == k,
    decreases k,
{
    if k > 0 {
        lemma_block_stop_frames_len(blocks, k - 1);
    }
}

proof fn lemma_block_stop_frames_index(blocks: Seq<usize>, k: int, i: int)
    requires
        0 <= i < k,
    ensures
        block_stop_frames(blocks, k)[i] == block_stop_frame(blocks[k - 1 - i]),
        block_stop_frames(blocks, k).len() == k,
    decreases k,
{
    lemma_block_stop_frames_len(blocks, k);
    if i > 0 {
        lemma_block_stop_frames_index(blocks, k - 1, i - 1);
    }
}


/// An Anthropic event carries content exactly when it is a
/// `content_block_delta` event holding a `"text_delta"`, `"thinking_delta"`
/// or `"input_json_delta"`; a `message_delta` or `message_stop` event is
/// remembered for closing the stream.
pub proof fn law_anthropic_content(before: CandidateState, after: CandidateState, event: Seq<u8>, r: EventAnalysis)
    requires
        anthropic_inspected(before, after, event, r),
        vstd::utf8::valid_utf8(event),
    ensures
        r.has_content <==> contains_seq(vstd::utf8::decode_utf8(event), "event: content_block_delta"@) && (
        contains_seq(vstd::utf8::decode_utf8(event), "\"text_delta\""@) || contains_seq(
            vstd::utf8::decode_utf8(event),
            "\"thinking_delta\""@,
        ) || contains_seq(vstd::utf8::decode_utf8(event), "\"input_json_delta\""@)),
        contains_seq(vstd::utf8::decode_utf8(event), "event: message_delta"@)
            ==> after.protocol_flags.emitted_message_delta,
        contains_seq(vstd::utf8::decode_utf8(event), "event: message_stop"@)
            ==> after.protocol_flags.emitted_message_stop,
{
}

} // verus!
